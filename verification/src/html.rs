//! The page pipeline: links, meta text, stripping, entities, body decoding.
use vstd::prelude::*;
use crate::text::{
    chars_of, string_of, strings_view, rfind_char, find_from, lower_seq, trim, trim_quotes,
    lower_chars, trim_then_unquote, contains_char,
};
use crate::scan::{
    Pattern, CapturePattern, Needles, replace_all, replace_all_exec, captures_all, captures_exec,
    find_from_exec,
};
use crate::urls::{parse_url, parse_join_url, url_parse, url_parse_join, UrlView, opt_view};

verus! {

broadcast use vstd::string::group_string_axioms;

/// The base URL against which the links of the page at `a_url` are resolved:
/// the page URL itself when its path is empty or `/`, else everything before
/// its last `/` (or the whole URL when it has none).
pub open spec fn base_url_spec(a_url: Seq<char>, parsed: Option<UrlView>) -> Seq<char> {
    if parsed matches Some(u) && (u.path.len() == 0 || u.path == seq!['/']) {
        a_url
    } else {
        match rfind_char(a_url, '/') {
            Some(i) => a_url.take(i),
            None => a_url,
        }
    }
}

pub fn base_url_for_page(a_url: &str) -> (r: String)
    ensures
        r@ == base_url_spec(a_url@, url_parse(a_url@)),
{
    let v = chars_of(a_url);
    if let Some(u) = parse_url(a_url) {
        let p = chars_of(u.path.as_str());
        if p.len() == 0 || (p.len() == 1 && p[0] == '/') {
            proof {
                if p.len() == 1 {
                    assert(p@ =~= seq!['/']);
                }
            }
            return a_url.to_owned();
        }
        assert(p@ != seq!['/']);
    }
    let mut j = v.len();
    assert(v@.take(v.len() as int) =~= v@);
    assert(base_url_spec(a_url@, url_parse(a_url@)) == match rfind_char(a_url@, '/') {
        Some(i) => a_url@.take(i),
        None => a_url@,
    });
    while j > 0
        invariant
            v@ == a_url@,
            base_url_spec(a_url@, url_parse(a_url@)) == match rfind_char(a_url@, '/') {
                Some(i) => a_url@.take(i),
                None => a_url@,
            },
            j <= v.len(),
            rfind_char(v@, '/') == rfind_char(v@.take(j as int), '/'),
        decreases j,
    {
        assert(v@.take(j as int).drop_last() =~= v@.take(j - 1));
        if v[j - 1] == '/' {
            let r = crate::text::slice_chars(&v, 0, j - 1);
            assert(r@ =~= v@.take(j - 1));
            return string_of(r.as_slice());
        }
        j -= 1;
    }
    a_url.to_owned()
}

/// `href` resolved against `base`, unless the result ends in an empty fragment (`#`).
pub open spec fn resolve_spec(joined: Option<UrlView>) -> Option<Seq<char>> {
    match joined {
        Some(u) => if u.fragment == Some(Seq::<char>::empty()) {
            None
        } else {
            Some(u.serialization)
        },
        None => None,
    }
}

pub fn resolve_href(base: &str, href: &str) -> (r: Option<String>)
    ensures
        opt_view(r) == resolve_spec(url_parse_join(base@, href@)),
{
    let joined = parse_join_url(base, href)?;
    if let Some(f) = &joined.fragment {
        if f.as_str().is_empty() {
            assert(f@ =~= Seq::<char>::empty());
            return None;
        }
    }
    Some(joined.serialization)
}

/// What `scraper` finds in `html` for the CSS selector `selector`: the value of
/// attribute `attr` of each matching element in document order (`None` where the
/// element lacks it), or `None` when the selector does not parse.
pub uninterp spec fn html_select_attr(html: Seq<char>, selector: Seq<char>, attr: Seq<char>) -> Option<
    Seq<Option<Seq<char>>>,
>;

pub open spec fn opt_strings_view(v: Seq<Option<String>>) -> Seq<Option<Seq<char>>> {
    v.map_values(|o: Option<String>| opt_view(o))
}

/// `scraper::Html::parse_document`, `Selector::parse` and `select`, reading
/// attribute `attr` (`Element::attr`) of every element found.
#[verifier::external_body]
fn select_attr_values(html: &str, selector: &str, attr: &str) -> (r: Option<Vec<Option<String>>>)
    ensures
        match r {
            Some(v) => html_select_attr(html@, selector@, attr@) == Some(opt_strings_view(v@)),
            None => html_select_attr(html@, selector@, attr@) is None,
        },
{
    let sel = match scraper::Selector::parse(selector) {
        Ok(s) => s,
        Err(_) => return None,
    };
    let doc = scraper::Html::parse_document(html);
    Some(doc.select(&sel).map(|el| el.value().attr(attr).map(|a| a.to_string())).collect())
}

/// The present values of a selection, in order.
pub open spec fn present_values(v: Seq<Option<Seq<char>>>) -> Seq<Seq<char>>
    decreases v.len(),
{
    if v.len() == 0 {
        Seq::empty()
    } else {
        match v.last() {
            Some(s) => present_values(v.drop_last()).push(s),
            None => present_values(v.drop_last()),
        }
    }
}

/// The selected values, or none when the selector does not parse.
pub open spec fn selected_values(sel: Option<Seq<Option<Seq<char>>>>) -> Seq<Seq<char>> {
    match sel {
        Some(v) => present_values(v),
        None => Seq::empty(),
    }
}

/// Each link target resolved against `base`, the ones that do not resolve dropped.
pub open spec fn resolve_all(base: Seq<char>, hrefs: Seq<Seq<char>>) -> Seq<Seq<char>>
    decreases hrefs.len(),
{
    if hrefs.len() == 0 {
        Seq::empty()
    } else {
        match resolve_spec(url_parse_join(base, hrefs.last())) {
            Some(u) => resolve_all(base, hrefs.drop_last()).push(u),
            None => resolve_all(base, hrefs.drop_last()),
        }
    }
}

/// The `href` of every `<a href>` element of `html`, resolved against the base
/// URL of `page_url`.
pub open spec fn hrefs_spec(html: Seq<char>, page_url: Seq<char>) -> Seq<Seq<char>> {
    resolve_all(
        base_url_spec(page_url, url_parse(page_url)),
        selected_values(html_select_attr(html, "a[href]"@, "href"@)),
    )
}

pub fn extract_hrefs(html: &str, page_url: &str) -> (r: Vec<String>)
    ensures
        strings_view(r@) == hrefs_spec(html@, page_url@),
{
    let base = base_url_for_page(page_url);
    let mut out: Vec<String> = Vec::new();
    let sel = select_attr_values(html, "a[href]", "href");
    let vals = match sel {
        Some(v) => v,
        None => {
            assert(strings_view(out@) =~= Seq::<Seq<char>>::empty());
            return out;
        },
    };
    let ghost ov = opt_strings_view(vals@);
    let ghost bv = base@;
    let mut i: usize = 0;
    while i < vals.len()
        invariant
            i <= vals.len(),
            ov == opt_strings_view(vals@),
            bv == base@,
            strings_view(out@) == resolve_all(bv, present_values(ov.take(i as int))),
        decreases vals.len() - i,
    {
        let ghost t = ov.take(i + 1);
        assert(t.drop_last() =~= ov.take(i as int));
        assert(t.last() == opt_view(vals@[i as int]));
        let ghost pv = present_values(ov.take(i as int));
        if let Some(h) = &vals[i] {
            assert(present_values(t).drop_last() =~= pv);
            if let Some(u) = resolve_href(base.as_str(), h.as_str()) {
                let ghost before = strings_view(out@);
                out.push(u);
                assert(strings_view(out@) =~= before.push(u@));
            }
        }
        i += 1;
    }
    assert(ov.take(vals.len() as int) =~= ov);
    out
}

/// Each non-empty value prefixed by one space, all concatenated.
pub open spec fn spaced_nonempty(vals: Seq<Seq<char>>) -> Seq<char>
    decreases vals.len(),
{
    if vals.len() == 0 {
        Seq::empty()
    } else if vals.last().len() > 0 {
        spaced_nonempty(vals.drop_last()) + seq![' '] + vals.last()
    } else {
        spaced_nonempty(vals.drop_last())
    }
}

/// Each value prefixed by one space, all concatenated.
pub open spec fn spaced_all(vals: Seq<Seq<char>>) -> Seq<char>
    decreases vals.len(),
{
    if vals.len() == 0 {
        Seq::empty()
    } else {
        spaced_all(vals.drop_last()) + seq![' '] + vals.last()
    }
}

/// Appends `' '` and then `v` to `out`.
fn push_spaced(out: &mut Vec<char>, v: &Vec<char>)
    ensures
        final(out)@ == old(out)@ + seq![' '] + v@,
{
    out.push(' ');
    let ghost mid = out@;
    let mut j: usize = 0;
    while j < v.len()
        invariant
            j <= v.len(),
            out@ == mid + v@.take(j as int),
        decreases v.len() - j,
    {
        out.push(v[j]);
        j += 1;
        assert(out@ =~= mid + v@.take(j as int));
    }
    assert(v@.take(v.len() as int) =~= v@);
}

/// Appends `" " + value` for every non-empty present value of the selection.
fn append_selected(out: &mut Vec<char>, html: &str, selector: &str, attr: &str)
    ensures
        final(out)@ == old(out)@ + spaced_nonempty(selected_values(html_select_attr(html@, selector@, attr@))),
{
    let vals = match select_attr_values(html, selector, attr) {
        Some(v) => v,
        None => {
            assert(old(out)@ + spaced_nonempty(Seq::empty()) =~= old(out)@);
            return;
        },
    };
    let ghost ov = opt_strings_view(vals@);
    let ghost start = out@;
    let mut i: usize = 0;
    assert(start + spaced_nonempty(present_values(ov.take(0))) =~= start);
    while i < vals.len()
        invariant
            i <= vals.len(),
            ov == opt_strings_view(vals@),
            out@ == start + spaced_nonempty(present_values(ov.take(i as int))),
        decreases vals.len() - i,
    {
        let ghost t = ov.take(i + 1);
        assert(t.drop_last() =~= ov.take(i as int));
        assert(t.last() == opt_view(vals@[i as int]));
        if let Some(c) = &vals[i] {
            let cv = chars_of(c.as_str());
            assert(present_values(t).drop_last() =~= present_values(ov.take(i as int)));
            if cv.len() > 0 {
                push_spaced(out, &cv);
                assert(out@ =~= start + spaced_nonempty(present_values(t)));
            }
        }
        i += 1;
    }
    assert(ov.take(vals.len() as int) =~= ov);
}

/// The text added from the description and keywords `<meta>` tags.
pub open spec fn meta_append_spec(html: Seq<char>) -> Seq<char> {
    spaced_nonempty(selected_values(html_select_attr(html, "meta[name=\"description\" i]"@, "content"@)))
        + spaced_nonempty(selected_values(html_select_attr(html, "meta[name=\"keywords\" i]"@, "content"@)))
}

/// `" " + content` for every non-empty `content` of a description `<meta>`
/// tag, then of a keywords `<meta>` tag.
pub fn extract_meta_append(html: &str) -> (r: String)
    ensures
        r@ == meta_append_spec(html@),
{
    let mut out: Vec<char> = Vec::new();
    append_selected(&mut out, html, "meta[name=\"description\" i]", "content");
    append_selected(&mut out, html, "meta[name=\"keywords\" i]", "content");
    assert(out@ =~= meta_append_spec(html@));
    string_of(out.as_slice())
}

/// The page with `<script>` blocks removed unless `keep_js`, then `<style>`
/// blocks unless `keep_css`.
pub open spec fn strip_blocks_spec(html: Seq<char>, keep_js: bool, keep_css: bool) -> Seq<char> {
    let a = if keep_js {
        html
    } else {
        replace_all(Pattern::Script, html, Seq::empty())
    };
    if keep_css {
        a
    } else {
        replace_all(Pattern::Style, a, Seq::empty())
    }
}

pub fn strip_scripts_styles_simple(html: &str, keep_js: bool, keep_css: bool) -> (r: String)
    ensures
        r@ == strip_blocks_spec(html@, keep_js, keep_css),
{
    let nd = Needles::new();
    let empty: Vec<char> = Vec::new();
    let mut s = chars_of(html);
    if !keep_js {
        s = replace_all_exec(Pattern::Script, &s, &empty, &nd);
    }
    if !keep_css {
        s = replace_all_exec(Pattern::Style, &s, &empty, &nd);
    }
    string_of(s.as_slice())
}

/// The target of every `location.href = '...';` assignment, in order.
pub fn extract_js_redirects(body: &str) -> (r: Vec<String>)
    ensures
        strings_view(r@) == captures_all(CapturePattern::JsRedirect, body@),
{
    let nd = Needles::new();
    let s = chars_of(body);
    let caps = captures_exec(CapturePattern::JsRedirect, &s, &nd);
    let r = crate::text::strings_of(&caps, caps.len());
    assert(crate::text::charvecs_view(caps@).take(caps.len() as int) =~= crate::text::charvecs_view(caps@));
    r
}

/// The `alt="..."` values, then the `title="..."` values, each after one space.
pub open spec fn alt_title_spec(body: Seq<char>) -> Seq<char> {
    spaced_all(captures_all(CapturePattern::Alt, body)) + spaced_all(captures_all(CapturePattern::Title, body))
}

fn append_captures(out: &mut Vec<char>, p: CapturePattern, s: &Vec<char>, nd: &Needles)
    requires
        nd.wf(),
    ensures
        final(out)@ == old(out)@ + spaced_all(captures_all(p, s@)),
{
    let caps = captures_exec(p, s, nd);
    let ghost cv = crate::text::charvecs_view(caps@);
    let ghost start = out@;
    let mut i: usize = 0;
    assert(start + spaced_all(cv.take(0)) =~= start);
    while i < caps.len()
        invariant
            i <= caps.len(),
            cv == crate::text::charvecs_view(caps@),
            out@ == start + spaced_all(cv.take(i as int)),
        decreases caps.len() - i,
    {
        let ghost t = cv.take(i + 1);
        assert(t.drop_last() =~= cv.take(i as int));
        assert(t.last() == caps@[i as int]@);
        push_spaced(out, &caps[i]);
        assert(out@ =~= start + spaced_all(t));
        i += 1;
    }
    assert(cv.take(caps.len() as int) =~= cv);
}

/// `" " + value` for every `alt="value"`, then for every `title="value"`.
pub fn harvest_alt_title(body: &str) -> (r: String)
    ensures
        r@ == alt_title_spec(body@),
{
    let nd = Needles::new();
    let s = chars_of(body);
    let mut out: Vec<char> = Vec::new();
    append_captures(&mut out, CapturePattern::Alt, &s, &nd);
    append_captures(&mut out, CapturePattern::Title, &s, &nd);
    assert(out@ =~= alt_title_spec(body@));
    string_of(out.as_slice())
}

/// Replaces every HTML comment by one space, so that words on either side stay apart.
pub fn strip_comments(body: &mut String)
    ensures
        final(body)@ == replace_all(Pattern::Comment, old(body)@, seq![' ']),
{
    let nd = Needles::new();
    let s = chars_of(body.as_str());
    let sp: Vec<char> = vec![' '];
    assert(sp@ =~= seq![' ']);
    let r = replace_all_exec(Pattern::Comment, &s, &sp, &nd);
    *body = string_of(r.as_slice());
}

/// Replaces every tag by one space, so that adjacent text stays word-separated.
pub fn strip_html_tags(body: &str) -> (r: String)
    ensures
        r@ == replace_all(Pattern::Tag, body@, seq![' ']),
{
    let nd = Needles::new();
    let s = chars_of(body);
    let sp: Vec<char> = vec![' '];
    assert(sp@ =~= seq![' ']);
    let r = replace_all_exec(Pattern::Tag, &s, &sp, &nd);
    string_of(r.as_slice())
}

/// What `html_escape::decode_html_entities` returns for `s`.
pub uninterp spec fn html_entities_decoded(s: Seq<char>) -> Seq<char>;

/// `html_escape::decode_html_entities`: named and numeric character references decoded.
#[verifier::external_body]
pub fn decode_html_entities(s: &str) -> (r: String)
    ensures
        r@ == html_entities_decoded(s@),
{
    html_escape::decode_html_entities(s).into_owned()
}

/// What `encoding_rs::Encoding::for_label(label)` followed by `Encoding::decode(bytes)`
/// gives: `None` when the label names no encoding, else the decoded text
/// (BOM sniffing included, malformed sequences replaced by U+FFFD).
pub uninterp spec fn encoding_decode_label(label: Seq<char>, bytes: Seq<u8>) -> Option<Seq<char>>;

/// What `encoding_rs::UTF_8.decode(bytes)` gives (BOM sniffing included,
/// malformed sequences replaced by U+FFFD).
pub uninterp spec fn encoding_decode_utf8(bytes: Seq<u8>) -> Seq<char>;

/// `encoding_rs::Encoding::for_label` then `Encoding::decode`.
/// `decode` panics only when its output buffer size overflows `usize`, which
/// the bound on the input length rules out (at most 3 output bytes per input byte, plus a few).
#[verifier::external_body]
fn decode_with_label(label: &[char], bytes: &[u8]) -> (r: Option<String>)
    requires
        bytes@.len() <= usize::MAX / 4,
    ensures
        crate::urls::opt_view(r) == encoding_decode_label(label@, bytes@),
{
    let label: String = label.iter().collect();
    match encoding_rs::Encoding::for_label(label.as_bytes()) {
        Some(enc) => Some(enc.decode(bytes).0.into_owned()),
        None => None,
    }
}

/// `encoding_rs::UTF_8.decode`.
#[verifier::external_body]
fn decode_utf8_lossy(bytes: &[u8]) -> (r: String)
    requires
        bytes@.len() <= usize::MAX / 4,
    ensures
        r@ == encoding_decode_utf8(bytes@),
{
    encoding_rs::UTF_8.decode(bytes).0.into_owned()
}

/// The charset label of a `Content-Type` value: what follows the first
/// `charset=` (found without regard to ASCII case), trimmed of whitespace
/// and then of quote characters.
pub open spec fn charset_label(ct: Seq<char>) -> Option<Seq<char>> {
    match find_from(lower_seq(ct), "charset="@, 0) {
        Some(p) => Some(trim_quotes(trim(ct.skip(p + "charset="@.len())))),
        None => None,
    }
}

/// The text of a response body: decoded with the charset of the content type
/// when one is named and known, else as UTF-8; decoded again as UTF-8 when
/// that text holds a U+FFFD replacement character.
pub open spec fn body_text_spec(bytes: Seq<u8>, content_type: Option<Seq<char>>) -> Seq<char> {
    let first = match content_type {
        Some(ct) => match charset_label(ct) {
            Some(l) => match encoding_decode_label(l, bytes) {
                Some(s) => s,
                None => encoding_decode_utf8(bytes),
            },
            None => encoding_decode_utf8(bytes),
        },
        None => encoding_decode_utf8(bytes),
    };
    if first.contains('\u{FFFD}') {
        encoding_decode_utf8(bytes)
    } else {
        first
    }
}

pub fn decode_body_bytes(bytes: &[u8], content_type: Option<&str>) -> (r: String)
    requires
        bytes@.len() <= usize::MAX / 4,
    ensures
        r@ == body_text_spec(bytes@, match content_type {
            Some(c) => Some(c@),
            None => None,
        }),
{
    let mut decoded: Option<String> = None;
    if let Some(ct) = content_type {
        let cv = chars_of(ct);
        let _n = cv.len();
        let lower = lower_chars(&cv);
        let needle = chars_of("charset=");
        if let Some(pos) = find_from_exec(&lower, &needle, 0) {
            proof {
                crate::text::lemma_find_from(lower@, needle@, 0);
            }
            let label = trim_then_unquote(&cv, pos + needle.len(), cv.len());
            assert(cv@.subrange(pos + needle@.len(), cv@.len() as int) =~= cv@.skip(pos + needle@.len()));
            decoded = decode_with_label(label.as_slice(), bytes);
        }
    }
    let s = match decoded {
        Some(s) => s,
        None => decode_utf8_lossy(bytes),
    };
    let sv = chars_of(s.as_str());
    if contains_char(&sv, '\u{FFFD}') {
        decode_utf8_lossy(bytes)
    } else {
        s
    }
}

} // verus!
