//! A multipart/form-data reader for request bodies. A body is a run of
//! parts between `--boundary` delimiter lines; each part carries header
//! lines, then a blank line, then its content. Of the headers, the
//! `Content-Disposition` line names the field (and a file name, when
//! one was sent) and an optional `Content-Type` line tags the content.

use vstd::prelude::*;
use crate::segment::first_sep_at;
use crate::segment::split_from;
use crate::segment::split_nonempty;
use crate::segment::str_views;
use crate::statics::starts_with;
use crate::statics::str_starts_with;
use crate::text::ascii_eq_fold;
use crate::text::eq_ignore_case;
use vstd::string::StrSliceExecFns;
use vstd::string::StringExecFns;

verus! {

/// One decoded part of a multipart body.
#[derive(Debug, Clone, PartialEq)]
pub struct Part {
    /// The field name the part was sent under.
    pub name: String,
    /// The file name, when the part carries a file.
    pub filename: Option<String>,
    /// The part's own content type, when one was sent.
    pub content_type: Option<String>,
    /// The part's content.
    pub data: String,
}

/// The mathematical shape of a [`Part`].
pub struct PartView {
    pub name: Seq<char>,
    pub filename: Option<Seq<char>>,
    pub content_type: Option<Seq<char>>,
    pub data: Seq<char>,
}

impl View for Part {
    type V = PartView;

    open spec fn view(&self) -> PartView {
        PartView {
            name: self.name@,
            filename: match self.filename {
                Some(f) => Some(f@),
                None => None,
            },
            content_type: match self.content_type {
                Some(c) => Some(c@),
                None => None,
            },
            data: self.data@,
        }
    }
}

/// The views of a part list.
pub open spec fn part_views(ps: Seq<Part>) -> Seq<PartView> {
    ps.map_values(|p: Part| p@)
}

/// True when `pat` stands verbatim at `i`.
pub open spec fn match_at(s: Seq<char>, pat: Seq<char>, i: int) -> bool {
    0 <= i && i + pat.len() <= s.len() && s.subrange(i, i + pat.len() as int) == pat
}

/// The least index at or after `i` where `pat` stands, or the length
/// when it stands nowhere.
pub open spec fn find_sub(s: Seq<char>, pat: Seq<char>, i: int) -> int
    decreases s.len() - i,
{
    if i < 0 || pat.len() == 0 || i + pat.len() > s.len() {
        s.len() as int
    } else if s.subrange(i, i + pat.len() as int) == pat {
        i
    } else {
        find_sub(s, pat, i + 1)
    }
}

pub proof fn lemma_find_sub_bounds(s: Seq<char>, pat: Seq<char>, i: int)
    requires
        0 <= i <= s.len(),
        pat.len() > 0,
    ensures
        i <= find_sub(s, pat, i) <= s.len(),
        find_sub(s, pat, i) < s.len() ==> match_at(s, pat, find_sub(s, pat, i)),
    decreases s.len() - i,
{
    if !(pat.len() == 0 || i + pat.len() > s.len()) && s.subrange(i, i + pat.len() as int)
        != pat {
        lemma_find_sub_bounds(s, pat, i + 1);
    }
}

/// Compares `pat` against the text at `i`.
pub fn match_at_exec(s: &str, pat: &str, i: usize) -> (r: bool)
    requires
        i as int <= s@.len(),
    ensures
        r == match_at(s@, pat@, i as int),
{
    let n = s.unicode_len();
    let m = pat.unicode_len();
    if n - i < m {
        return false;
    }
    let sub = s.substring_char(i, i + m);
    let r = crate::text::str_eq(sub, pat);
    proof {
        assert(sub@ == s@.subrange(i as int, i + m));
    }
    r
}

/// Finds the first stand of `pat` at or after `i`.
pub fn find_sub_exec(s: &str, pat: &str, i: usize) -> (r: usize)
    requires
        i as int <= s@.len(),
        pat@.len() > 0,
    ensures
        r as int == find_sub(s@, pat@, i as int),
        i <= r,
        r as int <= s@.len(),
{
    let n = s.unicode_len();
    let mut j = i;
    loop
        invariant
            i <= j <= n,
            n == s@.len(),
            pat@.len() > 0,
            find_sub(s@, pat@, i as int) == find_sub(s@, pat@, j as int),
        ensures
            i <= j <= n,
            find_sub(s@, pat@, i as int) == j as int,
        decreases n - j,
    {
        if j == n {
            proof {
                assert(j + pat@.len() > s@.len());
            }
            break;
        }
        if match_at_exec(s, pat, j) {
            proof {
                assert(find_sub(s@, pat@, j as int) == j as int);
            }
            break;
        }
        proof {
            if j + pat@.len() > s@.len() {
                assert(find_sub(s@, pat@, j as int) == s@.len());
                assert(find_sub(s@, pat@, j + 1) == s@.len());
            }
        }
        j = j + 1;
    }
    j
}

/// A header line with its end-of-line marker stripped.
pub open spec fn strip_cr(t: Seq<char>) -> Seq<char> {
    if t.len() > 0 && t[t.len() - 1] == '\r' {
        t.take(t.len() - 1)
    } else {
        t
    }
}

/// The header lines of a part's header block.
pub open spec fn header_lines(headers: Seq<char>) -> Seq<Seq<char>> {
    split_from(headers, '\n', 0).map_values(|t: Seq<char>| strip_cr(t))
}

/// True when `s` begins with `prefix` up to ASCII case.
pub open spec fn fold_prefix(s: Seq<char>, prefix: Seq<char>) -> bool {
    prefix.len() <= s.len() && ascii_eq_fold(s.take(prefix.len() as int), prefix)
}

/// The first line carrying the given prefix, up to ASCII case.
pub open spec fn first_line_with_prefix(lines: Seq<Seq<char>>, prefix: Seq<char>) -> Option<
    Seq<char>,
>
    decreases lines.len(),
{
    if lines.len() == 0 {
        None
    } else if fold_prefix(lines[0], prefix) {
        Some(lines[0])
    } else {
        first_line_with_prefix(lines.drop_first(), prefix)
    }
}

/// The first index at or after `i` holding no blank or tab, or the
/// length.
pub open spec fn skip_spaces(s: Seq<char>, i: int) -> int
    decreases s.len() - i,
{
    if i < 0 || i >= s.len() {
        s.len() as int
    } else if s[i] == ' ' || s[i] == '\t' {
        skip_spaces(s, i + 1)
    } else {
        i
    }
}

/// The text with its leading blanks and tabs dropped.
pub open spec fn trim_start(s: Seq<char>) -> Seq<char> {
    s.skip(skip_spaces(s, 0))
}

/// The quoted value of the first parameter that begins with `pat`
/// (the parameter name, its `=` and the opening quote) once its leading
/// blanks are dropped: the characters up to the closing quote.
pub open spec fn param_quoted(params: Seq<Seq<char>>, pat: Seq<char>) -> Option<Seq<char>>
    decreases params.len(),
{
    if params.len() == 0 {
        None
    } else {
        let t = trim_start(params[0]);
        if starts_with(t, pat) {
            let v = t.skip(pat.len() as int);
            Some(v.take(first_sep_at(v, '"', 0)))
        } else {
            param_quoted(params.drop_first(), pat)
        }
    }
}

/// What one part's header block and content decode to: the field name
/// (a part without one is malformed), the file name when one was sent,
/// the part's content type, and the content itself.
pub open spec fn part_of(headers: Seq<char>, content: Seq<char>) -> Option<PartView> {
    let lines = header_lines(headers);
    match first_line_with_prefix(lines, "Content-Disposition:"@) {
        None => None,
        Some(cd) => {
            let params = split_from(cd, ';', 0);
            match param_quoted(params, "name=\""@) {
                None => None,
                Some(name) => {
                    let filename = param_quoted(params, "filename=\""@);
                    let ct = match first_line_with_prefix(lines, "Content-Type:"@) {
                        Some(line) => Some(trim_start(line.skip("Content-Type:"@.len() as int))),
                        None => None,
                    };
                    Some(PartView { name, filename, content_type: ct, data: content })
                },
            }
        },
    }
}

/// The parts of a body from `p` on, `p` standing right after a
/// delimiter: `--` closes the body; a line end opens a part whose
/// headers run to the first blank line and whose content runs to the
/// next delimiter.
pub open spec fn mp_parts(s: Seq<char>, d: Seq<char>, p: int) -> Option<Seq<PartView>>
    decreases s.len() - p,
    via mp_parts_decreases
{
    if p < 0 || p + 2 > s.len() {
        None
    } else if s[p] == '-' && s[p + 1] == '-' {
        Some(Seq::empty())
    } else if s[p] == '\r' && s[p + 1] == '\n' {
        let hstart = p + 2;
        let hb = find_sub(s, seq!['\r', '\n', '\r', '\n'], hstart);
        if hb >= s.len() {
            None
        } else {
            let cstart = hb + 4;
            let cend = find_sub(s, seq!['\r', '\n'] + d, cstart);
            if cend >= s.len() {
                None
            } else {
                match part_of(s.subrange(hstart, hb), s.subrange(cstart, cend)) {
                    None => None,
                    Some(part) => match mp_parts(s, d, cend + 2 + d.len()) {
                        Some(rest) => Some(seq![part] + rest),
                        None => None,
                    },
                }
            }
        }
    } else {
        None
    }
}

#[via_fn]
proof fn mp_parts_decreases(s: Seq<char>, d: Seq<char>, p: int) {
    if !(p < 0 || p + 2 > s.len()) && !(s[p] == '-' && s[p + 1] == '-') && s[p] == '\r' && s[p + 1]
        == '\n' {
        let hstart = p + 2;
        lemma_find_sub_bounds(s, seq!['\r', '\n', '\r', '\n'], hstart);
        let hb = find_sub(s, seq!['\r', '\n', '\r', '\n'], hstart);
        if hb < s.len() {
            let cstart = hb + 4;
            if cstart <= s.len() {
                lemma_find_sub_bounds(s, seq!['\r', '\n'] + d, cstart);
            }
        }
    }
}

/// What a whole body decodes to: it must open with the delimiter, and
/// its parts follow.
pub open spec fn multipart_spec(body: Seq<char>, boundary: Seq<char>) -> Option<Seq<PartView>> {
    let d = seq!['-', '-'] + boundary;
    if match_at(body, d, 0) {
        mp_parts(body, d, d.len() as int)
    } else {
        None
    }
}

/// The boundary a Content-Type header names, when it names one: the
/// text after `boundary=`, quoted or running to the next `;`.
pub open spec fn boundary_of(ct: Seq<char>) -> Option<Seq<char>> {
    let i = find_sub(ct, "boundary="@, 0);
    if i >= ct.len() {
        None
    } else {
        let v = ct.skip(i + 9);
        if v.len() > 0 && v[0] == '"' {
            Some(v.skip(1).take(first_sep_at(v.skip(1), '"', 0)))
        } else {
            Some(v.take(first_sep_at(v, ';', 0)))
        }
    }
}

/// Reads the boundary out of a Content-Type header value.
pub fn extract_boundary(ct: &str) -> (r: Option<String>)
    ensures
        match r {
            Some(b) => boundary_of(ct@) == Some(b@),
            None => boundary_of(ct@) is None,
        },
{
    proof {
        reveal_strlit("boundary=");
    }
    let n = ct.unicode_len();
    let i = find_sub_exec(ct, "boundary=", 0);
    if i >= n {
        return None;
    }
    proof {
        lemma_find_sub_bounds(ct@, "boundary="@, 0);
        assert(match_at(ct@, "boundary="@, i as int));
    }
    let v = ct.substring_char(i + 9, n);
    proof {
        assert(v@ =~= ct@.skip(i + 9));
    }
    let vlen = v.unicode_len();
    if vlen > 0 && v.get_char(0) == '"' {
        let inner = v.substring_char(1, vlen);
        proof {
            assert(inner@ =~= v@.skip(1));
        }
        let q = crate::urlparse::find_char(inner, '"');
        proof {
            crate::segment::lemma_first_sep_at_bounds(inner@, '"', 0);
        }
        let b = inner.substring_char(0, q);
        proof {
            assert(b@ =~= v@.skip(1).take(first_sep_at(v@.skip(1), '"', 0)));
        }
        Some(b.to_owned())
    } else {
        let q = crate::urlparse::find_char(v, ';');
        proof {
            crate::segment::lemma_first_sep_at_bounds(v@, ';', 0);
        }
        let b = v.substring_char(0, q);
        proof {
            assert(b@ =~= v@.take(first_sep_at(v@, ';', 0)));
        }
        Some(b.to_owned())
    }
}

/// True when `s` begins with `prefix` up to ASCII case.
fn fold_prefix_exec(s: &str, prefix: &str) -> (r: bool)
    ensures
        r == fold_prefix(s@, prefix@),
{
    let n = prefix.unicode_len();
    if s.unicode_len() < n {
        return false;
    }
    let front = s.substring_char(0, n);
    let r = eq_ignore_case(front, prefix);
    proof {
        assert(front@ == s@.take(prefix@.len() as int));
    }
    r
}

/// Splits a header block into its lines.
fn header_lines_exec(headers: &str) -> (r: Vec<String>)
    ensures
        str_views(r@) == header_lines(headers@),
{
    let raw = split_nonempty(headers, '\n');
    let mut out: Vec<String> = Vec::new();
    let n = raw.len();
    for i in 0..n
        invariant
            n == raw@.len(),
            str_views(raw@) == split_from(headers@, '\n', 0),
            str_views(out@) =~= header_lines(headers@).take(i as int),
    {
        let line = &raw[i];
        proof {
            assert(str_views(raw@)[i as int] == raw@[i as int]@);
            assert(header_lines(headers@)[i as int] == strip_cr(raw@[i as int]@));
        }
        let len = line.as_str().unicode_len();
        let ghost out_before = out@;
        if len > 0 && line.as_str().get_char(len - 1) == '\r' {
            let stripped = line.as_str().substring_char(0, len - 1).to_owned();
            proof {
                assert(stripped@ =~= strip_cr(line@));
            }
            out.push(stripped);
        } else {
            out.push(line.clone());
        }
        proof {
            assert(str_views(out@) =~= str_views(out_before).push(strip_cr(raw@[i as int]@)));
            assert(str_views(out@) =~= header_lines(headers@).take(i + 1));
        }
    }
    proof {
        assert(header_lines(headers@).take(n as int) =~= header_lines(headers@));
    }
    out
}

/// Finds the first line carrying the prefix, up to ASCII case.
fn find_line_with_prefix<'a>(lines: &'a Vec<String>, prefix: &str) -> (r: Option<&'a String>)
    ensures
        match r {
            Some(line) => first_line_with_prefix(str_views(lines@), prefix@) == Some(line@)
                && fold_prefix(line@, prefix@),
            None => first_line_with_prefix(str_views(lines@), prefix@) is None,
        },
{
    let n = lines.len();
    proof {
        assert(str_views(lines@).skip(0) =~= str_views(lines@));
    }
    for i in 0..n
        invariant
            n == lines@.len(),
            first_line_with_prefix(str_views(lines@), prefix@) == first_line_with_prefix(
                str_views(lines@).skip(i as int),
                prefix@,
            ),
    {
        proof {
            assert(str_views(lines@).skip(i as int)[0] == lines@[i as int]@);
        }
        if fold_prefix_exec(lines[i].as_str(), prefix) {
            return Some(&lines[i]);
        }
        proof {
            assert(str_views(lines@).skip(i as int).drop_first() =~= str_views(lines@).skip(i + 1));
        }
    }
    proof {
        assert(str_views(lines@).skip(n as int) =~= Seq::<Seq<char>>::empty());
    }
    None
}

/// Drops the leading blanks and tabs.
fn trim_start_exec(s: &str) -> (r: String)
    ensures
        r@ == trim_start(s@),
{
    let n = s.unicode_len();
    let mut k: usize = 0;
    loop
        invariant
            k <= n,
            n == s@.len(),
            skip_spaces(s@, 0) == skip_spaces(s@, k as int),
        ensures
            k <= n,
            skip_spaces(s@, 0) == k as int,
        decreases n - k,
    {
        if k == n {
            break;
        }
        let c = s.get_char(k);
        if !(c == ' ' || c == '\t') {
            break;
        }
        k = k + 1;
    }
    let r = s.substring_char(k, n);
    proof {
        assert(r@ =~= s@.skip(skip_spaces(s@, 0)));
    }
    r.to_owned()
}

/// Finds the quoted value of the parameter beginning with `pat`.
fn param_quoted_exec(params: &Vec<String>, pat: &str) -> (r: Option<String>)
    ensures
        match r {
            Some(v) => param_quoted(str_views(params@), pat@) == Some(v@),
            None => param_quoted(str_views(params@), pat@) is None,
        },
{
    let n = params.len();
    proof {
        assert(str_views(params@).skip(0) =~= str_views(params@));
    }
    for i in 0..n
        invariant
            n == params@.len(),
            param_quoted(str_views(params@), pat@) == param_quoted(
                str_views(params@).skip(i as int),
                pat@,
            ),
    {
        proof {
            assert(str_views(params@).skip(i as int)[0] == params@[i as int]@);
        }
        let t = trim_start_exec(params[i].as_str());
        if str_starts_with(t.as_str(), pat) {
            let plen = pat.unicode_len();
            let tlen = t.as_str().unicode_len();
            let v = t.as_str().substring_char(plen, tlen);
            proof {
                assert(v@ =~= t@.skip(pat@.len() as int));
            }
            let q = crate::urlparse::find_char(v, '"');
            proof {
                crate::segment::lemma_first_sep_at_bounds(v@, '"', 0);
            }
            let val = v.substring_char(0, q);
            proof {
                assert(val@ =~= v@.take(first_sep_at(v@, '"', 0)));
            }
            return Some(val.to_owned());
        }
        proof {
            assert(str_views(params@).skip(i as int).drop_first() =~= str_views(params@).skip(
                i + 1,
            ));
        }
    }
    proof {
        assert(str_views(params@).skip(n as int) =~= Seq::<Seq<char>>::empty());
    }
    None
}

/// Decodes one part from its header block and content.
fn part_of_exec(headers: &str, content: &str) -> (r: Option<Part>)
    ensures
        match r {
            Some(part) => part_of(headers@, content@) == Some(part@),
            None => part_of(headers@, content@) is None,
        },
{
    let lines = header_lines_exec(headers);
    let cd = match find_line_with_prefix(&lines, "Content-Disposition:") {
        Some(line) => line,
        None => {
            return None;
        },
    };
    let params = split_nonempty(cd.as_str(), ';');
    let name = match param_quoted_exec(&params, "name=\"") {
        Some(v) => v,
        None => {
            return None;
        },
    };
    let filename = param_quoted_exec(&params, "filename=\"");
    let content_type: Option<String> = match find_line_with_prefix(&lines, "Content-Type:") {
        Some(line) => {
            let plen = "Content-Type:".unicode_len();
            let llen = line.as_str().unicode_len();
            proof {
                assert(fold_prefix(line@, "Content-Type:"@));
            }
            let after = line.as_str().substring_char(plen, llen);
            proof {
                assert(after@ =~= line@.skip("Content-Type:"@.len() as int));
            }
            Some(trim_start_exec(after))
        },
        None => None,
    };
    Some(Part { name, filename, content_type, data: content.to_owned() })
}

/// Decodes a whole multipart body against its boundary.
pub fn parse_multipart(body: &str, boundary: &str) -> (r: Option<Vec<Part>>)
    ensures
        match r {
            Some(parts) => multipart_spec(body@, boundary@) == Some(part_views(parts@)),
            None => multipart_spec(body@, boundary@) is None,
        },
{
    let d = "--".to_owned().concat(boundary);
    proof {
        reveal_strlit("--");
        assert(d@ =~= seq!['-', '-'] + boundary@);
    }
    if !match_at_exec(body, d.as_str(), 0) {
        return None;
    }
    let dlen = d.as_str().unicode_len();
    parts_from(body, d.as_str(), dlen)
}

/// Decodes the parts from `p` on, mirroring [`mp_parts`].
fn parts_from(s: &str, d: &str, p: usize) -> (r: Option<Vec<Part>>)
    requires
        p as int <= s@.len(),
        d@.len() >= 2,
    ensures
        match r {
            Some(parts) => mp_parts(s@, d@, p as int) == Some(part_views(parts@)),
            None => mp_parts(s@, d@, p as int) is None,
        },
    decreases s@.len() - p,
{
    let n = s.unicode_len();
    if n - p < 2 {
        return None;
    }
    let c0 = s.get_char(p);
    let c1 = s.get_char(p + 1);
    if c0 == '-' && c1 == '-' {
        let parts: Vec<Part> = Vec::new();
        proof {
            assert(part_views(parts@) =~= Seq::<PartView>::empty());
        }
        return Some(parts);
    }
    if !(c0 == '\r' && c1 == '\n') {
        return None;
    }
    let hstart = p + 2;
    let blank = "\r\n\r\n";
    proof {
        reveal_strlit("\r\n\r\n");
        assert(blank@ =~= seq!['\r', '\n', '\r', '\n']);
    }
    let hb = find_sub_exec(s, blank, hstart);
    if hb >= n {
        return None;
    }
    proof {
        lemma_find_sub_bounds(s@, seq!['\r', '\n', '\r', '\n'], hstart as int);
        assert(match_at(s@, seq!['\r', '\n', '\r', '\n'], hb as int));
    }
    let cstart = hb + 4;
    let delim = "\r\n".to_owned().concat(d);
    proof {
        reveal_strlit("\r\n");
        assert(delim@ =~= seq!['\r', '\n'] + d@);
    }
    let cend = find_sub_exec(s, delim.as_str(), cstart);
    if cend >= n {
        return None;
    }
    proof {
        lemma_find_sub_bounds(s@, seq!['\r', '\n'] + d@, cstart as int);
        assert(match_at(s@, seq!['\r', '\n'] + d@, cend as int));
    }
    let headers = s.substring_char(hstart, hb);
    let content = s.substring_char(cstart, cend);
    proof {
        assert(headers@ == s@.subrange(hstart as int, hb as int));
        assert(content@ == s@.subrange(cstart as int, cend as int));
    }
    let part = match part_of_exec(headers, content) {
        Some(part) => part,
        None => {
            return None;
        },
    };
    let dlen = d.unicode_len();
    match parts_from(s, d, cend + 2 + dlen) {
        Some(mut parts) => {
            let ghost part_v = part@;
            let ghost parts_before = parts@;
            parts.insert(0, part);
            proof {
                assert(parts@.drop_first() =~= parts_before);
                assert(part_views(parts@) =~= seq![part_v] + part_views(parts_before));
            }
            Some(parts)
        },
        None => None,
    }
}

} // verus!
