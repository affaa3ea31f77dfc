//! Static asset mappings: validating a path-prefix → filesystem-root
//! record, normalizing the root to end with the path separator, and
//! resolving a request path to the file it names.
//!
//! Canonicalizing a relative or symlinked root touches the filesystem,
//! so the host resolves the root before handing it here.

use vstd::prelude::*;
use crate::routes::CompileError;
use crate::text::str_eq;
use crate::value::Value;
use crate::value::record_lookup;
use vstd::string::StrSliceExecFns;
use vstd::string::StringExecFns;

verus! {

/// A compiled static asset mapping: requests whose path starts with
/// `path` are served from below `file_path`, which always ends with the
/// path separator.
pub struct StaticServe {
    pub path: String,
    pub file_path: String,
}

/// The mathematical shape of a [`StaticServe`].
pub struct StaticView {
    pub path: Seq<char>,
    pub file_path: Seq<char>,
}

impl View for StaticServe {
    type V = StaticView;

    open spec fn view(&self) -> StaticView {
        StaticView { path: self.path@, file_path: self.file_path@ }
    }
}

/// What one static record yields: its `path` and `file_path` strings,
/// checked in that order.
pub open spec fn static_strings_spec(v: Value) -> Result<(Seq<char>, Seq<char>), CompileError> {
    match v {
        Value::Record(entries) => match record_lookup(entries@, "path"@) {
            Some(Value::Str(p)) => match record_lookup(entries@, "file_path"@) {
                Some(Value::Str(f)) => Ok((p@, f@)),
                _ => Err(CompileError::MissingFilePath),
            },
            _ => Err(CompileError::MissingPath),
        },
        _ => Err(CompileError::NotARecord),
    }
}

/// Validates one static record and hands back its two strings; the
/// host still has to resolve the root before compiling the mapping.
pub fn extract_static_strings(v: &Value) -> (r: Result<(String, String), CompileError>)
    ensures
        match r {
            Ok(pair) => static_strings_spec(*v) == Ok::<(Seq<char>, Seq<char>), CompileError>(
                (pair.0@, pair.1@),
            ),
            Err(e) => static_strings_spec(*v) == Err::<(Seq<char>, Seq<char>), CompileError>(e),
        },
{
    let entries = match v {
        Value::Record(entries) => entries,
        _ => {
            return Err(CompileError::NotARecord);
        },
    };
    let path = match crate::value::record_get(entries, "path") {
        Some(Value::Str(p)) => p.clone(),
        _ => {
            return Err(CompileError::MissingPath);
        },
    };
    let file_path = match crate::value::record_get(entries, "file_path") {
        Some(Value::Str(f)) => f.clone(),
        _ => {
            return Err(CompileError::MissingFilePath);
        },
    };
    Ok((path, file_path))
}

/// The root with a terminating separator: unchanged when it already
/// ends with `/`, else with one appended.
pub open spec fn normalized_root(root: Seq<char>) -> Seq<char> {
    if root.len() > 0 && root[root.len() - 1] == '/' {
        root
    } else {
        root.push('/')
    }
}

/// Builds the mapping from a URL prefix and an already-resolved root,
/// normalizing the root to end with the path separator.
pub fn make_static_serve(path: String, file_path: String) -> (r: StaticServe)
    ensures
        r@.path == path@,
        r@.file_path == normalized_root(file_path@),
{
    let n = file_path.as_str().unicode_len();
    if n > 0 && file_path.as_str().get_char(n - 1) == '/' {
        StaticServe { path, file_path }
    } else {
        let mut file_path = file_path;
        crate::text::push_char(&mut file_path, '/');
        StaticServe { path, file_path }
    }
}

/// True when `s` begins with `prefix`.
pub open spec fn starts_with(s: Seq<char>, prefix: Seq<char>) -> bool {
    prefix.len() <= s.len() && s.take(prefix.len() as int) == prefix
}

/// Compares the front of `s` against `prefix`.
pub fn str_starts_with(s: &str, prefix: &str) -> (r: bool)
    ensures
        r == starts_with(s@, prefix@),
{
    let n = s.unicode_len();
    let p = prefix.unicode_len();
    if p > n {
        return false;
    }
    let front = s.substring_char(0, p);
    let r = str_eq(front, prefix);
    proof {
        assert(front@ == s@.take(p as int));
    }
    r
}

/// The filesystem path a request path resolves to under the first
/// mapping whose URL prefix it carries: the root with the prefix
/// stripped off the front.
pub open spec fn resolve_static_spec(maps: Seq<StaticView>, path: Seq<char>) -> Option<
    (int, Seq<char>),
>
    decreases maps.len(),
{
    if maps.len() == 0 {
        None
    } else if starts_with(path, maps[0].path) {
        Some((0, maps[0].file_path + path.skip(maps[0].path.len() as int)))
    } else {
        match resolve_static_spec(maps.drop_first(), path) {
            Some((i, f)) => Some((i + 1, f)),
            None => None,
        }
    }
}

/// The views of a static mapping list.
pub open spec fn static_views(maps: Seq<StaticServe>) -> Seq<StaticView> {
    maps.map_values(|m: StaticServe| m@)
}

/// Resolves a request path against the mappings in declaration order;
/// on a hit returns the mapping's index and the filesystem path.
pub fn resolve_static(maps: &Vec<StaticServe>, path: &str) -> (r: Option<(usize, String)>)
    ensures
        match r {
            Some((idx, f)) => {
                &&& idx < maps@.len()
                &&& resolve_static_spec(static_views(maps@), path@) matches Some((i, fs))
                    && i == idx as int && fs == f@
            },
            None => resolve_static_spec(static_views(maps@), path@) is None,
        },
{
    let n = maps.len();
    proof {
        assert(static_views(maps@).skip(0) =~= static_views(maps@));
    }
    for i in 0..n
        invariant
            n == maps@.len(),
            forall|j: int| 0 <= j < i ==> !starts_with(path@, static_views(maps@)[j].path),
            resolve_static_spec(static_views(maps@), path@) == match resolve_static_spec(
                static_views(maps@).skip(i as int),
                path@,
            ) {
                Some((k, f)) => Some((k + i, f)),
                None => None::<(int, Seq<char>)>,
            },
    {
        let st = &maps[i];
        proof {
            assert(static_views(maps@)[i as int] == maps@[i as int]@);
            assert(static_views(maps@).skip(i as int)[0] == static_views(maps@)[i as int]);
        }
        if str_starts_with(path, st.path.as_str()) {
            let plen = st.path.as_str().unicode_len();
            let slen = path.unicode_len();
            let rest = path.substring_char(plen, slen);
            let f = st.file_path.clone().concat(rest);
            proof {
                assert(rest@ == path@.skip(plen as int));
                assert(f@ == maps@[i as int]@.file_path + path@.skip(
                    maps@[i as int]@.path.len() as int,
                ));
            }
            return Some((i, f));
        }
        proof {
            assert(static_views(maps@).skip(i as int).drop_first() =~= static_views(maps@).skip(
                i + 1,
            ));
        }
    }
    proof {
        assert(static_views(maps@).skip(n as int) =~= Seq::<StaticView>::empty());
    }
    None
}

/// The guessed media type of the file a path names; a pure function of
/// the path text.
pub uninterp spec fn mime_of(path: Seq<char>) -> Seq<char>;

/// Relies on `mime_guess::from_path`: the guess reads only the path's
/// extension (no disk access) and falls back to `text/plain`, so the
/// result is a function of the path text alone.
#[verifier::external_body]
fn guess_mime(path: &str) -> (r: String)
    ensures
        r@ == mime_of(path@),
{
    mime_guess::from_path(path).first_or_text_plain().as_ref().to_owned()
}

/// The headers a served static file carries: its guessed content type
/// and the fixed server identification.
pub fn static_file_headers(fs_path: &str) -> (r: Vec<(String, String)>)
    ensures
        r@.len() == 2,
        r@[0].0@ == "Content-Type"@,
        r@[0].1@ == mime_of(fs_path@),
        r@[1].0@ == "Server"@,
        r@[1].1@ == "Adana"@,
{
    let ct = guess_mime(fs_path);
    let mut headers: Vec<(String, String)> = Vec::new();
    headers.push(("Content-Type".to_owned(), ct));
    headers.push(("Server".to_owned(), "Adana".to_owned()));
    headers
}

} // verus!
