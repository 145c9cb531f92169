//! Author and creator metadata of documents: PDF text, `exiftool` output,
//! and the core properties of OOXML packages; and what kind of file a path
//! names.
use vstd::prelude::*;
use vstd::utf8::{valid_utf8, decode_utf8};
use vstd::string::StrSliceExecFns;
use crate::text::{
    chars_of, string_of, trim, trim_str, strings_view, charvecs_view, lines_spec, lines_exec, find_char_from,
    is_white_space, ends_with,
};
use crate::urls::utf8_decode;

verus! {

broadcast use vstd::string::group_string_axioms;

/// The trimmed value, when it is not empty.
pub open spec fn nonempty_trimmed(s: Seq<char>) -> Seq<Seq<char>> {
    if trim(s).len() > 0 {
        seq![trim(s)]
    } else {
        Seq::empty()
    }
}

/// Adds `s` trimmed, unless that leaves it empty.
pub fn push_nonempty(out: &mut Vec<String>, s: &str)
    ensures
        strings_view(final(out)@) == strings_view(old(out)@) + nonempty_trimmed(s@),
{
    let ghost before = strings_view(out@);
    let t = trim_str(s);
    if !t.as_str().is_empty() {
        let ghost tv = t@;
        out.push(t);
        assert(strings_view(out@) =~= before + seq![tv]);
    } else {
        assert(before + nonempty_trimmed(s@) =~= before);
    }
}

// ----- exiftool output: `^\s*[^:]+:\s*(.+)$` on each line -----

/// The captured value of an exiftool line: after the first `:` (which must not
/// be the first character), with leading whitespace skipped but at least one
/// character kept.
pub open spec fn exif_capture(l: Seq<char>) -> Option<Seq<char>> {
    match find_char_from(l, ':', 0) {
        Some(k) => if k >= 1 && k + 1 < l.len() {
            let rest = l.skip(k + 1);
            let w = crate::text::trim_start(rest);
            if w.len() > 0 {
                Some(w)
            } else {
                Some(seq![rest.last()])
            }
        } else {
            None
        },
        None => None,
    }
}

/// The values of an exiftool report, trimmed, the empty ones dropped.
pub open spec fn exif_values(ls: Seq<Seq<char>>) -> Seq<Seq<char>>
    decreases ls.len(),
{
    if ls.len() == 0 {
        Seq::empty()
    } else {
        exif_values(ls.drop_last()) + match exif_capture(ls.last()) {
            Some(c) => nonempty_trimmed(c),
            None => Seq::empty(),
        }
    }
}

fn exif_capture_exec(l: &Vec<char>) -> (r: Option<Vec<char>>)
    ensures
        match r {
            Some(c) => exif_capture(l@) == Some(c@),
            None => exif_capture(l@) is None,
        },
{
    let _n = l.len();
    let k = match crate::scan::find_char_from_exec(l, ':', 0) {
        Some(k) => {
            proof {
                crate::text::lemma_find_char_from(l@, ':', 0);
            }
            k
        },
        None => return None,
    };
    if !(k >= 1 && k + 1 < l.len()) {
        return None;
    }
    let rest = crate::text::slice_chars(l, k + 1, l.len());
    assert(rest@ =~= l@.skip(k + 1));
    let mut a: usize = 0;
    assert(rest@.skip(0) =~= rest@);
    while a < rest.len() && crate::text::is_whitespace(rest[a])
        invariant
            a <= rest.len(),
            crate::text::trim_start(rest@) == crate::text::trim_start(rest@.skip(a as int)),
        decreases rest.len() - a,
    {
        assert(rest@.skip(a as int).drop_first() =~= rest@.skip(a + 1));
        a += 1;
    }
    if a < rest.len() {
        let w = crate::text::slice_chars(&rest, a, rest.len());
        assert(w@ =~= rest@.skip(a as int));
        assert(rest@.skip(a as int)[0] == rest@[a as int]);
        Some(w)
    } else {
        assert(rest@.skip(a as int) =~= Seq::<char>::empty());
        let mut w: Vec<char> = Vec::new();
        w.push(rest[rest.len() - 1]);
        assert(w@ =~= seq![rest@.last()]);
        Some(w)
    }
}

/// The author, last-saved-by and creator values that `exiftool -Author
/// -LastSavedBy -Creator` printed (`name: value` lines).
pub fn exif_metadata(output: &str) -> (r: Vec<String>)
    ensures
        strings_view(r@) == exif_values(lines_spec(output@)),
{
    let ls = lines_exec(&chars_of(output));
    let ghost lv = charvecs_view(ls@);
    let mut out: Vec<String> = Vec::new();
    let mut i: usize = 0;
    while i < ls.len()
        invariant
            i <= ls.len(),
            lv == charvecs_view(ls@),
            strings_view(out@) == exif_values(lv.take(i as int)),
        decreases ls.len() - i,
    {
        let ghost t = lv.take(i + 1);
        assert(t.drop_last() =~= lv.take(i as int));
        assert(t.last() == ls@[i as int]@);
        match exif_capture_exec(&ls[i]) {
            Some(c) => {
                push_nonempty(&mut out, string_of(c.as_slice()).as_str());
            },
            None => {
                assert(strings_view(out@) =~= strings_view(out@) + Seq::<Seq<char>>::empty());
            },
        }
        i += 1;
    }
    assert(lv.take(ls.len() as int) =~= lv);
    out
}

} // verus!

verus! {

// ----- PDF text: eight byte patterns tried on each line -----

pub open spec fn byte_lower(b: u8) -> u8 {
    if 65 <= b <= 90 {
        (b + 32) as u8
    } else {
        b
    }
}

/// `p` occurs in `l` at `i`; with `ci`, ASCII case aside (`p` in lowercase).
pub open spec fn bytes_occur_at(l: Seq<u8>, p: Seq<u8>, i: int, ci: bool) -> bool {
    &&& 0 <= i
    &&& i + p.len() <= l.len()
    &&& forall|j: int| 0 <= j < p.len() ==> (if ci { byte_lower(#[trigger] l[i + j]) } else { l[i + j] }) == p[j]
}

pub open spec fn find_byte_from(l: Seq<u8>, b: u8, start: int) -> Option<int>
    decreases l.len() - start,
{
    if start < 0 || start >= l.len() {
        None
    } else if l[start] == b {
        Some(start)
    } else {
        find_byte_from(l, b, start + 1)
    }
}

/// `OPEN([^']*)'`: the capture runs to the next `'` and must be valid UTF-8
/// (the pattern's class matches whole characters only).
pub open spec fn quoted_bytes_match(l: Seq<u8>, i: int, open: Seq<u8>, ci: bool) -> Option<(int, int)> {
    if bytes_occur_at(l, open, i, ci) {
        match find_byte_from(l, 39u8, i + open.len()) {
            Some(j) => if valid_utf8(l.subrange(i + open.len(), j)) {
                Some((i + open.len(), j))
            } else {
                None
            },
            None => None,
        }
    } else {
        None
    }
}

/// `(?i)/Author ?\(([^)]*)\)`.
pub open spec fn slash_author_match(l: Seq<u8>, i: int, open: Seq<u8>) -> Option<(int, int)> {
    if bytes_occur_at(l, open, i, true) {
        let q = i + open.len();
        let paren = if q < l.len() && l[q] == 32u8 {
            q + 1
        } else {
            q
        };
        if paren < l.len() && l[paren] == 40u8 {
            match find_byte_from(l, 41u8, paren + 1) {
                Some(j) => if valid_utf8(l.subrange(paren + 1, j)) {
                    Some((paren + 1, j))
                } else {
                    None
                },
                None => None,
            }
        } else {
            None
        }
    } else {
        None
    }
}

/// The last `j` in `[a, top]` where `close` occurs (ASCII case aside) and
/// `l[a..j]` is valid UTF-8.
pub open spec fn last_valid_close(l: Seq<u8>, close: Seq<u8>, a: int, top: int) -> Option<int>
    decreases top - a + 1,
{
    if top < a {
        None
    } else if bytes_occur_at(l, close, top, true) && valid_utf8(l.subrange(a, top)) {
        Some(top)
    } else {
        last_valid_close(l, close, a, top - 1)
    }
}

/// `(?i)OPEN(.*)CLOSE`: greedy, so the capture ends at the last closing tag
/// that leaves it valid UTF-8.
pub open spec fn tag_bytes_match(l: Seq<u8>, i: int, open: Seq<u8>, close: Seq<u8>) -> Option<(int, int)> {
    if bytes_occur_at(l, open, i, true) {
        match last_valid_close(l, close, i + open.len(), l.len() - close.len()) {
            Some(j) => Some((i + open.len(), j)),
            None => None,
        }
    } else {
        None
    }
}

pub open spec fn ascii_bytes(s: Seq<char>) -> Seq<u8> {
    vstd::utf8::encode_utf8(s)
}

/// The eight patterns, in the order they are tried on each line.
pub open spec fn pdf_match_at(k: int, l: Seq<u8>, i: int) -> Option<(int, int)> {
    if k == 0 {
        quoted_bytes_match(l, i, ascii_bytes("pdf:Author='"@), false)
    } else if k == 1 {
        quoted_bytes_match(l, i, ascii_bytes("xap:author='"@), true)
    } else if k == 2 {
        quoted_bytes_match(l, i, ascii_bytes("dc:creator='"@), true)
    } else if k == 3 {
        slash_author_match(l, i, ascii_bytes("/author"@))
    } else if k == 4 {
        tag_bytes_match(l, i, ascii_bytes("<xap:creator>"@), ascii_bytes("</xap:creator>"@))
    } else if k == 5 {
        tag_bytes_match(l, i, ascii_bytes("<xap:author>"@), ascii_bytes("</xap:author>"@))
    } else if k == 6 {
        tag_bytes_match(l, i, ascii_bytes("<pdf:author>"@), ascii_bytes("</pdf:author>"@))
    } else {
        tag_bytes_match(l, i, ascii_bytes("<dc:creator>"@), ascii_bytes("</dc:creator>"@))
    }
}

/// The capture of the leftmost match of pattern `k` at or after `i`.
pub open spec fn pdf_first_match(k: int, l: Seq<u8>, i: int) -> Option<(int, int)>
    decreases l.len() - i,
{
    if i < 0 || i >= l.len() {
        None
    } else {
        match pdf_match_at(k, l, i) {
            Some(c) => Some(c),
            None => pdf_first_match(k, l, i + 1),
        }
    }
}

/// The values that patterns `0..n` find on one line.
pub open spec fn pdf_line_values(l: Seq<u8>, n: int) -> Seq<Seq<char>>
    decreases n,
{
    if n <= 0 {
        Seq::empty()
    } else {
        pdf_line_values(l, n - 1) + match pdf_first_match(n - 1, l, 0) {
            Some((a, b)) => nonempty_trimmed(decode_utf8(l.subrange(a, b))),
            None => Seq::empty(),
        }
    }
}

/// The pieces of `s` between `c` bytes (one more than there are `c`s).
pub open spec fn split_bytes(s: Seq<u8>, c: u8) -> Seq<Seq<u8>>
    decreases s.len(),
{
    if s.len() == 0 {
        seq![Seq::empty()]
    } else {
        let p = split_bytes(s.drop_last(), c);
        if s.last() == c {
            p.push(Seq::empty())
        } else {
            p.update(p.len() - 1, p.last().push(s.last()))
        }
    }
}

/// `BufRead::split(b'\n')`: the pieces between newlines, without a final empty one.
pub open spec fn byte_lines(s: Seq<u8>) -> Seq<Seq<u8>> {
    let p = split_bytes(s, 10u8);
    if p.last().len() == 0 {
        p.drop_last()
    } else {
        p
    }
}

/// The metadata found in the lines of a PDF file.
pub open spec fn pdf_values(ls: Seq<Seq<u8>>) -> Seq<Seq<char>>
    decreases ls.len(),
{
    if ls.len() == 0 {
        Seq::empty()
    } else {
        pdf_values(ls.drop_last()) + pdf_line_values(ls.last(), 8)
    }
}

} // verus!

verus! {

pub open spec fn bytevecs_view(v: Seq<Vec<u8>>) -> Seq<Seq<u8>> {
    v.map_values(|x: Vec<u8>| x@)
}

fn split_bytes_exec(s: &[u8], c: u8) -> (r: Vec<Vec<u8>>)
    ensures
        bytevecs_view(r@) == split_bytes(s@, c),
        r@.len() >= 1,
{
    let mut done: Vec<Vec<u8>> = Vec::new();
    let mut cur: Vec<u8> = Vec::new();
    let mut i: usize = 0;
    assert(s@.take(0) =~= Seq::<u8>::empty());
    while i < s.len()
        invariant
            i <= s.len(),
            split_bytes(s@.take(i as int), c) == bytevecs_view(done@).push(cur@),
        decreases s.len() - i,
    {
        let ghost t = s@.take(i + 1);
        assert(t.drop_last() =~= s@.take(i as int));
        let ghost before = bytevecs_view(done@);
        if s[i] == c {
            let finished = cur;
            done.push(finished);
            cur = Vec::new();
            assert(bytevecs_view(done@) =~= before.push(finished@));
            assert(cur@ =~= Seq::<u8>::empty());
        } else {
            let ghost old_cur = cur@;
            cur.push(s[i]);
            assert(split_bytes(t, c) =~= before.push(old_cur).update(before.len() as int, old_cur.push(s@[i as int])));
            assert(split_bytes(t, c) =~= before.push(cur@));
        }
        i += 1;
    }
    assert(s@.take(s.len() as int) =~= s@);
    let ghost before = bytevecs_view(done@);
    done.push(cur);
    assert(bytevecs_view(done@) =~= before.push(cur@));
    done
}

fn byte_lines_exec(s: &[u8]) -> (r: Vec<Vec<u8>>)
    ensures
        bytevecs_view(r@) == byte_lines(s@),
{
    let mut p = split_bytes_exec(s, 10u8);
    let n = p.len();
    if p[n - 1].len() == 0 {
        let ghost before = bytevecs_view(p@);
        p.pop();
        assert(bytevecs_view(p@) =~= before.drop_last());
    }
    p
}

fn bytes_occur_at_exec(l: &Vec<u8>, p: &Vec<u8>, i: usize, ci: bool) -> (b: bool)
    ensures
        b == bytes_occur_at(l@, p@, i as int, ci),
{
    if i > l.len() || p.len() > l.len() - i {
        return false;
    }
    let mut j: usize = 0;
    while j < p.len()
        invariant
            i + p.len() <= l.len(),
            j <= p.len(),
            forall|k: int|
                0 <= k < j ==> (if ci { byte_lower(#[trigger] l@[i + k]) } else { l@[i + k] }) == p@[k],
        decreases p.len() - j,
    {
        let x = l[i + j];
        let y = if ci && 65 <= x && x <= 90 {
            x + 32
        } else {
            x
        };
        if y != p[j] {
            return false;
        }
        j += 1;
    }
    true
}

fn find_byte_from_exec(l: &Vec<u8>, b: u8, start: usize) -> (r: Option<usize>)
    ensures
        match r {
            Some(k) => find_byte_from(l@, b, start as int) == Some(k as int) && start <= k < l@.len(),
            None => find_byte_from(l@, b, start as int) is None,
        },
{
    let mut i = start;
    while i < l.len()
        invariant
            start <= i,
            find_byte_from(l@, b, start as int) == find_byte_from(l@, b, i as int),
        decreases l.len() - i,
    {
        if l[i] == b {
            return Some(i);
        }
        i += 1;
    }
    None
}

fn slice_bytes(l: &Vec<u8>, a: usize, b: usize) -> (r: Vec<u8>)
    requires
        a <= b <= l.len(),
    ensures
        r@ == l@.subrange(a as int, b as int),
{
    let mut out: Vec<u8> = Vec::new();
    let mut i = a;
    while i < b
        invariant
            a <= i <= b <= l.len(),
            out@ == l@.subrange(a as int, i as int),
        decreases b - i,
    {
        out.push(l[i]);
        i += 1;
        assert(out@ =~= l@.subrange(a as int, i as int));
    }
    out
}

/// The text of `l[a..b]` when it is valid UTF-8.
fn decode_region(l: &Vec<u8>, a: usize, b: usize) -> (r: Option<String>)
    requires
        a <= b <= l.len(),
    ensures
        r is Some <==> valid_utf8(l@.subrange(a as int, b as int)),
        r matches Some(s) ==> s@ == decode_utf8(l@.subrange(a as int, b as int)),
{
    let v = slice_bytes(l, a, b);
    utf8_decode(v.as_slice())
}

} // verus!

verus! {

/// The literal pieces of the eight PDF patterns, as bytes.
pub struct PdfNeedles {
    pub pdf_author_q: Vec<u8>,
    pub xap_author_q: Vec<u8>,
    pub dc_creator_q: Vec<u8>,
    pub slash_author: Vec<u8>,
    pub xap_creator_open: Vec<u8>,
    pub xap_creator_close: Vec<u8>,
    pub xap_author_open: Vec<u8>,
    pub xap_author_close: Vec<u8>,
    pub pdf_author_open: Vec<u8>,
    pub pdf_author_close: Vec<u8>,
    pub dc_creator_open: Vec<u8>,
    pub dc_creator_close: Vec<u8>,
}

impl PdfNeedles {
    pub open spec fn wf(&self) -> bool {
        &&& self.pdf_author_q@ == ascii_bytes("pdf:Author='"@)
        &&& self.xap_author_q@ == ascii_bytes("xap:author='"@)
        &&& self.dc_creator_q@ == ascii_bytes("dc:creator='"@)
        &&& self.slash_author@ == ascii_bytes("/author"@)
        &&& self.xap_creator_open@ == ascii_bytes("<xap:creator>"@)
        &&& self.xap_creator_close@ == ascii_bytes("</xap:creator>"@)
        &&& self.xap_author_open@ == ascii_bytes("<xap:author>"@)
        &&& self.xap_author_close@ == ascii_bytes("</xap:author>"@)
        &&& self.pdf_author_open@ == ascii_bytes("<pdf:author>"@)
        &&& self.pdf_author_close@ == ascii_bytes("</pdf:author>"@)
        &&& self.dc_creator_open@ == ascii_bytes("<dc:creator>"@)
        &&& self.dc_creator_close@ == ascii_bytes("</dc:creator>"@)
    }

    pub fn new() -> (n: Self)
        ensures
            n.wf(),
    {
        PdfNeedles {
            pdf_author_q: "pdf:Author='".as_bytes_vec(),
            xap_author_q: "xap:author='".as_bytes_vec(),
            dc_creator_q: "dc:creator='".as_bytes_vec(),
            slash_author: "/author".as_bytes_vec(),
            xap_creator_open: "<xap:creator>".as_bytes_vec(),
            xap_creator_close: "</xap:creator>".as_bytes_vec(),
            xap_author_open: "<xap:author>".as_bytes_vec(),
            xap_author_close: "</xap:author>".as_bytes_vec(),
            pdf_author_open: "<pdf:author>".as_bytes_vec(),
            pdf_author_close: "</pdf:author>".as_bytes_vec(),
            dc_creator_open: "<dc:creator>".as_bytes_vec(),
            dc_creator_close: "</dc:creator>".as_bytes_vec(),
        }
    }
}

fn quoted_bytes_match_exec(l: &Vec<u8>, i: usize, open: &Vec<u8>, ci: bool) -> (r: Option<(usize, usize)>)
    ensures
        match r {
            Some((a, b)) => quoted_bytes_match(l@, i as int, open@, ci) == Some((a as int, b as int)) && a <= b <= l@.len() && valid_utf8(l@.subrange(a as int, b as int)),
            None => quoted_bytes_match(l@, i as int, open@, ci) is None,
        },
{
    let _n = l.len();
    if !bytes_occur_at_exec(l, open, i, ci) {
        return None;
    }
    let a = i + open.len();
    match find_byte_from_exec(l, 39u8, a) {
        Some(j) => {
            if decode_region(l, a, j).is_some() {
                Some((a, j))
            } else {
                None
            }
        },
        None => None,
    }
}

fn slash_author_match_exec(l: &Vec<u8>, i: usize, open: &Vec<u8>) -> (r: Option<(usize, usize)>)
    ensures
        match r {
            Some((a, b)) => slash_author_match(l@, i as int, open@) == Some((a as int, b as int)) && a <= b <= l@.len() && valid_utf8(l@.subrange(a as int, b as int)),
            None => slash_author_match(l@, i as int, open@) is None,
        },
{
    let _n = l.len();
    if !bytes_occur_at_exec(l, open, i, true) {
        return None;
    }
    let q = i + open.len();
    let paren = if q < l.len() && l[q] == 32u8 {
        q + 1
    } else {
        q
    };
    if !(paren < l.len() && l[paren] == 40u8) {
        return None;
    }
    match find_byte_from_exec(l, 41u8, paren + 1) {
        Some(j) => {
            if decode_region(l, paren + 1, j).is_some() {
                Some((paren + 1, j))
            } else {
                None
            }
        },
        None => None,
    }
}

fn tag_bytes_match_exec(l: &Vec<u8>, i: usize, open: &Vec<u8>, close: &Vec<u8>) -> (r: Option<(usize, usize)>)
    ensures
        match r {
            Some((a, b)) => tag_bytes_match(l@, i as int, open@, close@) == Some((a as int, b as int)) && a <= b
                <= l@.len() && valid_utf8(l@.subrange(a as int, b as int)),
            None => tag_bytes_match(l@, i as int, open@, close@) is None,
        },
{
    let _n = l.len();
    if !bytes_occur_at_exec(l, open, i, true) {
        return None;
    }
    let a = i + open.len();
    if close.len() > l.len() || l.len() - close.len() < a {
        assert(last_valid_close(l@, close@, a as int, l@.len() - close@.len()) is None);
        return None;
    }
    let mut top = l.len() - close.len();
    loop
        invariant
            a == i + open@.len(),
            bytes_occur_at(l@, open@, i as int, true),
            a <= top + 1,
            top + close.len() <= l.len(),
            last_valid_close(l@, close@, a as int, l@.len() - close@.len()) == last_valid_close(
                l@,
                close@,
                a as int,
                top as int,
            ),
        decreases top + 1 - a,
    {
        if top < a {
            return None;
        }
        if bytes_occur_at_exec(l, close, top, true) && decode_region(l, a, top).is_some() {
            return Some((a, top));
        }
        if top == a {
            assert(last_valid_close(l@, close@, a as int, top - 1) is None);
            return None;
        }
        top = top - 1;
    }
}

fn pdf_match_at_exec(k: usize, l: &Vec<u8>, i: usize, nd: &PdfNeedles) -> (r: Option<(usize, usize)>)
    requires
        nd.wf(),
        k < 8,
    ensures
        match r {
            Some((a, b)) => pdf_match_at(k as int, l@, i as int) == Some((a as int, b as int)) && a <= b <= l@.len() && valid_utf8(l@.subrange(a as int, b as int)),
            None => pdf_match_at(k as int, l@, i as int) is None,
        },
{
    if k == 0 {
        quoted_bytes_match_exec(l, i, &nd.pdf_author_q, false)
    } else if k == 1 {
        quoted_bytes_match_exec(l, i, &nd.xap_author_q, true)
    } else if k == 2 {
        quoted_bytes_match_exec(l, i, &nd.dc_creator_q, true)
    } else if k == 3 {
        slash_author_match_exec(l, i, &nd.slash_author)
    } else if k == 4 {
        tag_bytes_match_exec(l, i, &nd.xap_creator_open, &nd.xap_creator_close)
    } else if k == 5 {
        tag_bytes_match_exec(l, i, &nd.xap_author_open, &nd.xap_author_close)
    } else if k == 6 {
        tag_bytes_match_exec(l, i, &nd.pdf_author_open, &nd.pdf_author_close)
    } else {
        tag_bytes_match_exec(l, i, &nd.dc_creator_open, &nd.dc_creator_close)
    }
}

fn pdf_first_match_exec(k: usize, l: &Vec<u8>, nd: &PdfNeedles) -> (r: Option<(usize, usize)>)
    requires
        nd.wf(),
        k < 8,
    ensures
        match r {
            Some((a, b)) => pdf_first_match(k as int, l@, 0) == Some((a as int, b as int)) && a <= b <= l@.len() && valid_utf8(l@.subrange(a as int, b as int)),
            None => pdf_first_match(k as int, l@, 0) is None,
        },
{
    let mut i: usize = 0;
    while i < l.len()
        invariant
            nd.wf(),
            k < 8,
            pdf_first_match(k as int, l@, 0) == pdf_first_match(k as int, l@, i as int),
        decreases l.len() - i,
    {
        if let Some(c) = pdf_match_at_exec(k, l, i, nd) {
            return Some(c);
        }
        i += 1;
    }
    None
}

fn pdf_line_values_exec(l: &Vec<u8>, out: &mut Vec<String>, nd: &PdfNeedles)
    requires
        nd.wf(),
    ensures
        strings_view(final(out)@) == strings_view(old(out)@) + pdf_line_values(l@, 8),
{
    let ghost start = strings_view(out@);
    let mut k: usize = 0;
    assert(start + pdf_line_values(l@, 0) =~= start);
    while k < 8
        invariant
            nd.wf(),
            k <= 8,
            strings_view(out@) == start + pdf_line_values(l@, k as int),
        decreases 8 - k,
    {
        let ghost before = strings_view(out@);
        match pdf_first_match_exec(k, l, nd) {
            Some((a, b)) => {
                match decode_region(l, a, b) {
                    Some(s) => {
                        push_nonempty(out, s.as_str());
                    },
                    None => {},
                }
            },
            None => {},
        }
        assert(strings_view(out@) =~= before + match pdf_first_match(k as int, l@, 0) {
            Some((a, b)) => nonempty_trimmed(decode_utf8(l@.subrange(a, b))),
            None => Seq::empty(),
        });
        assert(strings_view(out@) =~= start + pdf_line_values(l@, k + 1));
        k += 1;
    }
}

/// The author and creator values found in the lines of a PDF file, line by
/// line and, on each line, pattern by pattern.
pub fn pdf_metadata(bytes: &[u8]) -> (r: Vec<String>)
    ensures
        strings_view(r@) == pdf_values(byte_lines(bytes@)),
{
    let nd = PdfNeedles::new();
    let ls = byte_lines_exec(bytes);
    let ghost lv = bytevecs_view(ls@);
    let mut out: Vec<String> = Vec::new();
    let mut i: usize = 0;
    assert(strings_view(out@) =~= pdf_values(lv.take(0)));
    while i < ls.len()
        invariant
            nd.wf(),
            i <= ls.len(),
            lv == bytevecs_view(ls@),
            strings_view(out@) == pdf_values(lv.take(i as int)),
        decreases ls.len() - i,
    {
        let ghost t = lv.take(i + 1);
        assert(t.drop_last() =~= lv.take(i as int));
        assert(t.last() == ls@[i as int]@);
        pdf_line_values_exec(&ls[i], &mut out, &nd);
        i += 1;
    }
    assert(lv.take(ls.len() as int) =~= lv);
    out
}

} // verus!

verus! {

// ----- OOXML core properties -----

/// The bytes of the entry `name` of the zip archive `archive`, as the `zip`
/// crate reads them (`None` when the archive, the entry or its data is unreadable).
pub uninterp spec fn zip_entry_bytes(archive: Seq<u8>, name: Seq<char>) -> Option<Seq<u8>>;

/// `zip::ZipArchive::new` over the bytes, `ZipArchive::by_name`, `Read::read_to_end`.
#[verifier::external_body]
fn zip_read_entry(archive: &[u8], name: &str) -> (r: Option<Vec<u8>>)
    ensures
        match r {
            Some(v) => zip_entry_bytes(archive@, name@) == Some(v@),
            None => zip_entry_bytes(archive@, name@) is None,
        },
{
    let mut a = match zip::ZipArchive::new(std::io::Cursor::new(archive)) {
        Ok(a) => a,
        Err(_) => return None,
    };
    let mut f = match a.by_name(name) {
        Ok(f) => f,
        Err(_) => return None,
    };
    let mut v = Vec::new();
    match std::io::Read::read_to_end(&mut f, &mut v) {
        Ok(_) => Some(v),
        Err(_) => None,
    }
}

/// The nodes of the XML document `text` in document order, as `roxmltree`
/// parses it: each node's local tag name (empty for non-elements) and its
/// text (`Node::text`); `None` when the document does not parse.
pub uninterp spec fn xml_nodes(text: Seq<char>) -> Option<Seq<(Seq<char>, Option<Seq<char>>)>>;

/// `roxmltree::Document::parse`, then `descendants`, `tag_name().name()` and `text` of each node.
#[verifier::external_body]
fn xml_node_texts(text: &str) -> (r: Option<Vec<(String, Option<String>)>>)
    ensures
        match r {
            Some(v) => xml_nodes(text@) == Some(v@.map_values(|p: (String, Option<String>)| (p.0@, crate::urls::opt_view(p.1)))),
            None => xml_nodes(text@) is None,
        },
{
    match roxmltree::Document::parse(text) {
        Ok(doc) => Some(doc.descendants().map(|n| (n.tag_name().name().to_string(), n.text().map(|t| t.to_string()))).collect()),
        Err(_) => None,
    }
}

/// The trimmed, non-empty texts of the `creator` and `lastModifiedBy` elements.
pub open spec fn core_values(nodes: Seq<(Seq<char>, Option<Seq<char>>)>) -> Seq<Seq<char>>
    decreases nodes.len(),
{
    if nodes.len() == 0 {
        Seq::empty()
    } else {
        let (name, t) = nodes.last();
        core_values(nodes.drop_last()) + if (name == "creator"@ || name == "lastModifiedBy"@) && t is Some {
            nonempty_trimmed(t->0)
        } else {
            Seq::empty()
        }
    }
}

/// The creator and last-modified-by values in `docProps/core.xml` of an OOXML package.
pub open spec fn docx_values(archive: Seq<u8>) -> Seq<Seq<char>> {
    match zip_entry_bytes(archive, "docProps/core.xml"@) {
        Some(xml) => if valid_utf8(xml) {
            match xml_nodes(decode_utf8(xml)) {
                Some(nodes) => core_values(nodes),
                None => Seq::empty(),
            }
        } else {
            Seq::empty()
        },
        None => Seq::empty(),
    }
}

pub fn docx_metadata(archive: &[u8]) -> (r: Vec<String>)
    ensures
        strings_view(r@) == docx_values(archive@),
{
    let mut out: Vec<String> = Vec::new();
    assert(strings_view(out@) =~= Seq::<Seq<char>>::empty());
    let xml = match zip_read_entry(archive, "docProps/core.xml") {
        Some(x) => x,
        None => return out,
    };
    let text = match utf8_decode(xml.as_slice()) {
        Some(t) => t,
        None => return out,
    };
    let nodes = match xml_node_texts(text.as_str()) {
        Some(n) => n,
        None => return out,
    };
    let ghost nv = nodes@.map_values(|p: (String, Option<String>)| (p.0@, crate::urls::opt_view(p.1)));
    let mut i: usize = 0;
    while i < nodes.len()
        invariant
            i <= nodes.len(),
            nv == nodes@.map_values(|p: (String, Option<String>)| (p.0@, crate::urls::opt_view(p.1))),
            strings_view(out@) == core_values(nv.take(i as int)),
        decreases nodes.len() - i,
    {
        let ghost t = nv.take(i + 1);
        assert(t.drop_last() =~= nv.take(i as int));
        assert(t.last() == (nodes@[i as int].0@, crate::urls::opt_view(nodes@[i as int].1)));
        let name = nodes[i].0.as_str();
        if crate::text::str_eq(name, "creator") || crate::text::str_eq(name, "lastModifiedBy") {
            if let Some(tx) = &nodes[i].1 {
                push_nonempty(&mut out, tx.as_str());
            } else {
                assert(strings_view(out@) =~= strings_view(out@) + Seq::<Seq<char>>::empty());
            }
        } else {
            assert(strings_view(out@) =~= strings_view(out@) + Seq::<Seq<char>>::empty());
        }
        i += 1;
    }
    assert(nv.take(nodes.len() as int) =~= nv);
    out
}

// ----- what kind of file a path names -----

/// What `mime_guess::from_path(path).first_raw()` gives (a guess from the extension).
pub uninterp spec fn mime_first_guess(path: Seq<char>) -> Option<Seq<char>>;

/// `mime_guess::from_path` then `MimeGuess::first_raw`.
#[verifier::external_body]
fn mime_guess_first(path: &str) -> (r: Option<String>)
    ensures
        crate::urls::opt_view(r) == mime_first_guess(path@),
{
    mime_guess::from_path(path).first_raw().map(|m| m.to_string())
}

/// How a file is read for metadata.
#[derive(Clone, Copy, Debug, PartialEq, Eq, Structural)]
pub enum FileKind {
    /// No MIME type can be guessed: nothing is read.
    NoMimeType,
    /// Word, Excel or PowerPoint before 2007: `exiftool`.
    LegacyOffice,
    /// PDF: `exiftool`, then the PDF text.
    Pdf,
    /// 2007-style Office package: its core properties.
    Office2007,
    /// A web page source: nothing to read.
    Ignored,
    /// Anything else: nothing is read.
    Unknown,
}

/// `name` ends with `p` (in lowercase) without regard to case.
pub open spec fn ci_ends_with(name: Seq<char>, p: Seq<char>) -> bool {
    p.len() <= name.len() && crate::scan::ci_occurs_at(name, p, name.len() - p.len())
}

/// `(?i)\.(doc|dot|ppt|pot|xls|xlt|pps)[xm]$|\.ppam$|\.xlsb$|\.xlam$`
pub open spec fn office_2007_name(name: Seq<char>) -> bool {
    ||| ci_ends_with(name, ".docx"@)
    ||| ci_ends_with(name, ".docm"@)
    ||| ci_ends_with(name, ".dotx"@)
    ||| ci_ends_with(name, ".dotm"@)
    ||| ci_ends_with(name, ".pptx"@)
    ||| ci_ends_with(name, ".pptm"@)
    ||| ci_ends_with(name, ".potx"@)
    ||| ci_ends_with(name, ".potm"@)
    ||| ci_ends_with(name, ".xlsx"@)
    ||| ci_ends_with(name, ".xlsm"@)
    ||| ci_ends_with(name, ".xltx"@)
    ||| ci_ends_with(name, ".xltm"@)
    ||| ci_ends_with(name, ".ppsx"@)
    ||| ci_ends_with(name, ".ppsm"@)
    ||| ci_ends_with(name, ".ppam"@)
    ||| ci_ends_with(name, ".xlsb"@)
    ||| ci_ends_with(name, ".xlam"@)
}

/// `(?i)\.(php|aspx|cfm|asp|html|htm)$`
pub open spec fn ignored_name(name: Seq<char>) -> bool {
    ||| ci_ends_with(name, ".php"@)
    ||| ci_ends_with(name, ".aspx"@)
    ||| ci_ends_with(name, ".cfm"@)
    ||| ci_ends_with(name, ".asp"@)
    ||| ci_ends_with(name, ".html"@)
    ||| ci_ends_with(name, ".htm"@)
}

pub open spec fn file_kind_spec(name: Seq<char>, mime: Option<Seq<char>>) -> FileKind {
    let m = match mime {
        Some(m) => m,
        None => Seq::empty(),
    };
    if m.len() == 0 {
        FileKind::NoMimeType
    } else if m == "application/msword"@ || m == "application/vnd.ms-excel"@ || m == "application/vnd.ms-powerpoint"@ {
        FileKind::LegacyOffice
    } else if m == "application/pdf"@ {
        FileKind::Pdf
    } else if office_2007_name(name) {
        FileKind::Office2007
    } else if ignored_name(name) {
        FileKind::Ignored
    } else {
        FileKind::Unknown
    }
}

/// A name whose lowercase form ends with `pattern` ends with it without regard to case.
proof fn lemma_ci_end(name: Seq<char>, pattern: Seq<char>)
    requires
        ends_with(crate::text::lower_seq(name), pattern),
    ensures
        ci_ends_with(name, pattern),
{
    let l = crate::text::lower_seq(name);
    let i = name.len() - pattern.len();
    assert forall|j: int| 0 <= j < pattern.len() implies crate::scan::ci_char_match(#[trigger] name[i + j], pattern[j]) by {
        assert(l.skip(i)[j] == l[i + j]);
    }
}

/// The names that `(?i)\.(doc|dot|ppt|pot|xls|xlt|pps)[xm]$|\.ppam$|\.xlsb$|\.xlam$`
/// matches, read on the ASCII-lowercased name.
pub open spec fn office_pattern_name(l: Seq<char>) -> bool {
    let n = l.len();
    ||| (n >= 5 && l[n - 5] == '.' && (l[n - 1] == 'x' || l[n - 1] == 'm') && {
        ||| l.subrange(n - 4, n - 1) == seq!['d', 'o', 'c']
        ||| l.subrange(n - 4, n - 1) == seq!['d', 'o', 't']
        ||| l.subrange(n - 4, n - 1) == seq!['p', 'p', 't']
        ||| l.subrange(n - 4, n - 1) == seq!['p', 'o', 't']
        ||| l.subrange(n - 4, n - 1) == seq!['x', 'l', 's']
        ||| l.subrange(n - 4, n - 1) == seq!['x', 'l', 't']
        ||| l.subrange(n - 4, n - 1) == seq!['p', 'p', 's']
    })
    ||| ends_with(l, seq!['.', 'p', 'p', 'a', 'm'])
    ||| ends_with(l, seq!['.', 'x', 'l', 's', 'b'])
    ||| ends_with(l, seq!['.', 'x', 'l', 'a', 'm'])
}

/// Every 2007-style Office name is recognised: a name that the pattern
/// matches (ASCII case aside) is read as an Office package whenever its MIME
/// type is known and is neither a legacy Office type nor PDF.
pub proof fn lemma_office_names_recognised(name: Seq<char>, mime: Seq<char>)
    requires
        office_pattern_name(crate::text::lower_seq(name)),
        mime.len() > 0,
        mime != "application/msword"@,
        mime != "application/vnd.ms-excel"@,
        mime != "application/vnd.ms-powerpoint"@,
        mime != "application/pdf"@,
    ensures
        office_2007_name(name),
        file_kind_spec(name, Some(mime)) == FileKind::Office2007,
{
    let l = crate::text::lower_seq(name);
    let n = l.len();
    if n >= 5 && l[n - 5] == '.' {
        assert(l.skip(n - 5)[0] == '.');
        if l.subrange(n - 4, n - 1) == seq!['d', 'o', 'c'] && l[n - 1] == 'x' {
            reveal_strlit(".docx");
            assert(l.skip(n - 5) =~= ".docx"@) by {
                assert(l.subrange(n - 4, n - 1)[0] == l[n - 4]);
                assert(l.subrange(n - 4, n - 1)[1] == l[n - 3]);
                assert(l.subrange(n - 4, n - 1)[2] == l[n - 2]);
            }
            lemma_ci_end(name, ".docx"@);
        }
        if l.subrange(n - 4, n - 1) == seq!['d', 'o', 'c'] && l[n - 1] == 'm' {
            reveal_strlit(".docm");
            assert(l.skip(n - 5) =~= ".docm"@) by {
                assert(l.subrange(n - 4, n - 1)[0] == l[n - 4]);
                assert(l.subrange(n - 4, n - 1)[1] == l[n - 3]);
                assert(l.subrange(n - 4, n - 1)[2] == l[n - 2]);
            }
            lemma_ci_end(name, ".docm"@);
        }
        if l.subrange(n - 4, n - 1) == seq!['d', 'o', 't'] && l[n - 1] == 'x' {
            reveal_strlit(".dotx");
            assert(l.skip(n - 5) =~= ".dotx"@) by {
                assert(l.subrange(n - 4, n - 1)[0] == l[n - 4]);
                assert(l.subrange(n - 4, n - 1)[1] == l[n - 3]);
                assert(l.subrange(n - 4, n - 1)[2] == l[n - 2]);
            }
            lemma_ci_end(name, ".dotx"@);
        }
        if l.subrange(n - 4, n - 1) == seq!['d', 'o', 't'] && l[n - 1] == 'm' {
            reveal_strlit(".dotm");
            assert(l.skip(n - 5) =~= ".dotm"@) by {
                assert(l.subrange(n - 4, n - 1)[0] == l[n - 4]);
                assert(l.subrange(n - 4, n - 1)[1] == l[n - 3]);
                assert(l.subrange(n - 4, n - 1)[2] == l[n - 2]);
            }
            lemma_ci_end(name, ".dotm"@);
        }
        if l.subrange(n - 4, n - 1) == seq!['p', 'p', 't'] && l[n - 1] == 'x' {
            reveal_strlit(".pptx");
            assert(l.skip(n - 5) =~= ".pptx"@) by {
                assert(l.subrange(n - 4, n - 1)[0] == l[n - 4]);
                assert(l.subrange(n - 4, n - 1)[1] == l[n - 3]);
                assert(l.subrange(n - 4, n - 1)[2] == l[n - 2]);
            }
            lemma_ci_end(name, ".pptx"@);
        }
        if l.subrange(n - 4, n - 1) == seq!['p', 'p', 't'] && l[n - 1] == 'm' {
            reveal_strlit(".pptm");
            assert(l.skip(n - 5) =~= ".pptm"@) by {
                assert(l.subrange(n - 4, n - 1)[0] == l[n - 4]);
                assert(l.subrange(n - 4, n - 1)[1] == l[n - 3]);
                assert(l.subrange(n - 4, n - 1)[2] == l[n - 2]);
            }
            lemma_ci_end(name, ".pptm"@);
        }
        if l.subrange(n - 4, n - 1) == seq!['p', 'o', 't'] && l[n - 1] == 'x' {
            reveal_strlit(".potx");
            assert(l.skip(n - 5) =~= ".potx"@) by {
                assert(l.subrange(n - 4, n - 1)[0] == l[n - 4]);
                assert(l.subrange(n - 4, n - 1)[1] == l[n - 3]);
                assert(l.subrange(n - 4, n - 1)[2] == l[n - 2]);
            }
            lemma_ci_end(name, ".potx"@);
        }
        if l.subrange(n - 4, n - 1) == seq!['p', 'o', 't'] && l[n - 1] == 'm' {
            reveal_strlit(".potm");
            assert(l.skip(n - 5) =~= ".potm"@) by {
                assert(l.subrange(n - 4, n - 1)[0] == l[n - 4]);
                assert(l.subrange(n - 4, n - 1)[1] == l[n - 3]);
                assert(l.subrange(n - 4, n - 1)[2] == l[n - 2]);
            }
            lemma_ci_end(name, ".potm"@);
        }
        if l.subrange(n - 4, n - 1) == seq!['x', 'l', 's'] && l[n - 1] == 'x' {
            reveal_strlit(".xlsx");
            assert(l.skip(n - 5) =~= ".xlsx"@) by {
                assert(l.subrange(n - 4, n - 1)[0] == l[n - 4]);
                assert(l.subrange(n - 4, n - 1)[1] == l[n - 3]);
                assert(l.subrange(n - 4, n - 1)[2] == l[n - 2]);
            }
            lemma_ci_end(name, ".xlsx"@);
        }
        if l.subrange(n - 4, n - 1) == seq!['x', 'l', 's'] && l[n - 1] == 'm' {
            reveal_strlit(".xlsm");
            assert(l.skip(n - 5) =~= ".xlsm"@) by {
                assert(l.subrange(n - 4, n - 1)[0] == l[n - 4]);
                assert(l.subrange(n - 4, n - 1)[1] == l[n - 3]);
                assert(l.subrange(n - 4, n - 1)[2] == l[n - 2]);
            }
            lemma_ci_end(name, ".xlsm"@);
        }
        if l.subrange(n - 4, n - 1) == seq!['x', 'l', 't'] && l[n - 1] == 'x' {
            reveal_strlit(".xltx");
            assert(l.skip(n - 5) =~= ".xltx"@) by {
                assert(l.subrange(n - 4, n - 1)[0] == l[n - 4]);
                assert(l.subrange(n - 4, n - 1)[1] == l[n - 3]);
                assert(l.subrange(n - 4, n - 1)[2] == l[n - 2]);
            }
            lemma_ci_end(name, ".xltx"@);
        }
        if l.subrange(n - 4, n - 1) == seq!['x', 'l', 't'] && l[n - 1] == 'm' {
            reveal_strlit(".xltm");
            assert(l.skip(n - 5) =~= ".xltm"@) by {
                assert(l.subrange(n - 4, n - 1)[0] == l[n - 4]);
                assert(l.subrange(n - 4, n - 1)[1] == l[n - 3]);
                assert(l.subrange(n - 4, n - 1)[2] == l[n - 2]);
            }
            lemma_ci_end(name, ".xltm"@);
        }
        if l.subrange(n - 4, n - 1) == seq!['p', 'p', 's'] && l[n - 1] == 'x' {
            reveal_strlit(".ppsx");
            assert(l.skip(n - 5) =~= ".ppsx"@) by {
                assert(l.subrange(n - 4, n - 1)[0] == l[n - 4]);
                assert(l.subrange(n - 4, n - 1)[1] == l[n - 3]);
                assert(l.subrange(n - 4, n - 1)[2] == l[n - 2]);
            }
            lemma_ci_end(name, ".ppsx"@);
        }
        if l.subrange(n - 4, n - 1) == seq!['p', 'p', 's'] && l[n - 1] == 'm' {
            reveal_strlit(".ppsm");
            assert(l.skip(n - 5) =~= ".ppsm"@) by {
                assert(l.subrange(n - 4, n - 1)[0] == l[n - 4]);
                assert(l.subrange(n - 4, n - 1)[1] == l[n - 3]);
                assert(l.subrange(n - 4, n - 1)[2] == l[n - 2]);
            }
            lemma_ci_end(name, ".ppsm"@);
        }
    }
    if ends_with(l, seq!['.', 'p', 'p', 'a', 'm']) {
        reveal_strlit(".ppam");
        assert(seq!['.', 'p', 'p', 'a', 'm'] =~= ".ppam"@);
        lemma_ci_end(name, ".ppam"@);
    }
    if ends_with(l, seq!['.', 'x', 'l', 's', 'b']) {
        reveal_strlit(".xlsb");
        assert(seq!['.', 'x', 'l', 's', 'b'] =~= ".xlsb"@);
        lemma_ci_end(name, ".xlsb"@);
    }
    if ends_with(l, seq!['.', 'x', 'l', 'a', 'm']) {
        reveal_strlit(".xlam");
        assert(seq!['.', 'x', 'l', 'a', 'm'] =~= ".xlam"@);
        lemma_ci_end(name, ".xlam"@);
    }
}

fn ci_ends_with_exec(name: &Vec<char>, p: &str) -> (b: bool)
    ensures
        b == ci_ends_with(name@, p@),
{
    let pv = chars_of(p);
    if pv.len() > name.len() {
        return false;
    }
    crate::scan::ci_occurs_at_exec(name, &pv, name.len() - pv.len())
}

/// The kind of file `name` names, given the MIME type guessed for it.
pub fn classify_file(name: &str, mime: Option<&str>) -> (k: FileKind)
    ensures
        k == file_kind_spec(name@, crate::crawler::opt_str_view(mime)),
{
    let m = match mime {
        Some(m) => m,
        None => "",
    };
    proof {
        reveal_strlit("");
    }
    if m.is_empty() {
        return FileKind::NoMimeType;
    }
    if crate::text::str_eq(m, "application/msword") || crate::text::str_eq(m, "application/vnd.ms-excel")
        || crate::text::str_eq(m, "application/vnd.ms-powerpoint") {
        return FileKind::LegacyOffice;
    }
    if crate::text::str_eq(m, "application/pdf") {
        return FileKind::Pdf;
    }
    let n = chars_of(name);
    if ci_ends_with_exec(&n, ".docx") || ci_ends_with_exec(&n, ".docm") || ci_ends_with_exec(&n, ".dotx")
        || ci_ends_with_exec(&n, ".dotm") || ci_ends_with_exec(&n, ".pptx") || ci_ends_with_exec(&n, ".pptm")
        || ci_ends_with_exec(&n, ".potx") || ci_ends_with_exec(&n, ".potm") || ci_ends_with_exec(&n, ".xlsx")
        || ci_ends_with_exec(&n, ".xlsm") || ci_ends_with_exec(&n, ".xltx") || ci_ends_with_exec(&n, ".xltm")
        || ci_ends_with_exec(&n, ".ppsx") || ci_ends_with_exec(&n, ".ppsm") || ci_ends_with_exec(&n, ".ppam")
        || ci_ends_with_exec(&n, ".xlsb") || ci_ends_with_exec(&n, ".xlam") {
        return FileKind::Office2007;
    }
    if ci_ends_with_exec(&n, ".php") || ci_ends_with_exec(&n, ".aspx") || ci_ends_with_exec(&n, ".cfm")
        || ci_ends_with_exec(&n, ".asp") || ci_ends_with_exec(&n, ".html") || ci_ends_with_exec(&n, ".htm") {
        return FileKind::Ignored;
    }
    FileKind::Unknown
}

/// The kind of the file at `path`, from the MIME type guessed from its name.
pub fn file_kind(path: &str) -> (k: FileKind)
    ensures
        k == file_kind_spec(path@, mime_first_guess(path@)),
{
    let m = mime_guess_first(path);
    match &m {
        Some(s) => classify_file(path, Some(s.as_str())),
        None => classify_file(path, None),
    }
}

} // verus!
