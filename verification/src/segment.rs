//! The path segment model: one URL path element is the root marker, a
//! literal, or a named variable, and a path string is cut into such
//! segments by splitting on `/` and discarding empty parts.

use vstd::prelude::*;
use vstd::string::StrSliceExecFns;

verus! {

/// One element of a URL path pattern or of a tokenized request path.
pub enum PathSegment {
    /// The whole path was `/` (or empty, for a request).
    Root,
    /// A fixed piece of text that must appear verbatim.
    Literal(String),
    /// A named variable at `position` (its index among the segments);
    /// it matches any literal request segment and captures its text.
    Variable { position: usize, name: String },
}

/// The mathematical shape of a [`PathSegment`].
pub enum SegView {
    Root,
    Literal(Seq<char>),
    Variable { position: int, name: Seq<char> },
}

impl View for PathSegment {
    type V = SegView;

    open spec fn view(&self) -> SegView {
        match self {
            PathSegment::Root => SegView::Root,
            PathSegment::Literal(t) => SegView::Literal(t@),
            PathSegment::Variable { position, name } => SegView::Variable {
                position: *position as int,
                name: name@,
            },
        }
    }
}

/// The views of a segment sequence.
pub open spec fn seg_views(s: Seq<PathSegment>) -> Seq<SegView> {
    s.map_values(|p: PathSegment| p@)
}

/// The views of a string sequence.
pub open spec fn str_views(s: Seq<String>) -> Seq<Seq<char>> {
    s.map_values(|t: String| t@)
}

/// The least index at or after `i` holding `sep`, or the length when no
/// such index exists.
pub open spec fn first_sep_at(s: Seq<char>, sep: char, i: int) -> int
    decreases s.len() - i,
{
    if i < 0 || i >= s.len() {
        s.len() as int
    } else if s[i] == sep {
        i
    } else {
        first_sep_at(s, sep, i + 1)
    }
}

pub proof fn lemma_first_sep_at_bounds(s: Seq<char>, sep: char, i: int)
    requires
        0 <= i <= s.len(),
    ensures
        i <= first_sep_at(s, sep, i) <= s.len(),
        i < s.len() && s[i] != sep ==> first_sep_at(s, sep, i) > i,
    decreases s.len() - i,
{
    if i < s.len() && s[i] != sep {
        lemma_first_sep_at_bounds(s, sep, i + 1);
    }
}

/// The maximal nonempty runs of characters other than `sep`, at or
/// after `i`, in order.
pub open spec fn split_from(s: Seq<char>, sep: char, i: int) -> Seq<Seq<char>>
    decreases s.len() - i,
    via split_from_decreases
{
    if i < 0 || i >= s.len() {
        seq![]
    } else if s[i] == sep {
        split_from(s, sep, i + 1)
    } else {
        let j = first_sep_at(s, sep, i);
        seq![s.subrange(i, j)] + split_from(s, sep, j)
    }
}

#[via_fn]
proof fn split_from_decreases(s: Seq<char>, sep: char, i: int) {
    if 0 <= i < s.len() && s[i] != sep {
        lemma_first_sep_at_bounds(s, sep, i);
    }
}

/// Cuts `s` at every `sep` and returns the nonempty pieces, in order.
pub fn split_nonempty(s: &str, sep: char) -> (r: Vec<String>)
    ensures
        str_views(r@) == split_from(s@, sep, 0),
{
    let n = s.unicode_len();
    let mut r: Vec<String> = Vec::new();
    let mut i: usize = 0;
    while i < n
        invariant
            n == s@.len(),
            i <= n,
            str_views(r@) + split_from(s@, sep, i as int) == split_from(s@, sep, 0),
        decreases n - i,
    {
        if s.get_char(i) == sep {
            i = i + 1;
        } else {
            let mut j = i + 1;
            loop
                invariant
                    i < j <= n,
                    n == s@.len(),
                    first_sep_at(s@, sep, i as int) == first_sep_at(s@, sep, j as int),
                ensures
                    i < j <= n,
                    first_sep_at(s@, sep, i as int) == j as int,
                decreases n - j,
            {
                if j == n {
                    break;
                }
                if s.get_char(j) == sep {
                    break;
                }
                j = j + 1;
            }
            let piece = s.substring_char(i, j).to_owned();
            let ghost r_before = r@;
            r.push(piece);
            proof {
                assert(str_views(r@) =~= str_views(r_before).push(piece@));
                assert(str_views(r_before) + split_from(s@, sep, i as int) =~= str_views(r@)
                    + split_from(s@, sep, j as int));
            }
            i = j;
        }
    }
    proof {
        assert(str_views(r@) + split_from(s@, sep, i as int) =~= str_views(r@));
    }
    r
}

/// The tokens of a request path: `/` and the empty path are the single
/// root token; any other path is its nonempty `/`-separated pieces,
/// each a literal token.
pub open spec fn tokenize_spec(path: Seq<char>) -> Seq<SegView> {
    if path.len() == 0 || path == "/"@ {
        seq![SegView::Root]
    } else {
        split_from(path, '/', 0).map_values(|t: Seq<char>| SegView::Literal(t))
    }
}

/// True of token sequences the tokenizer can produce: either the single
/// root token or literals only.
pub open spec fn well_formed_tokens(toks: Seq<SegView>) -> bool {
    toks == seq![SegView::Root] || (forall|i: int| 0 <= i < toks.len() ==> toks[i] is Literal)
}

pub proof fn lemma_tokenize_well_formed(path: Seq<char>)
    ensures
        well_formed_tokens(tokenize_spec(path)),
{
    if !(path.len() == 0 || path == "/"@) {
        let pieces = split_from(path, '/', 0);
        assert(forall|i: int|
            0 <= i < pieces.len() ==> tokenize_spec(path)[i] is Literal);
    }
}

/// Tokenizes a request path for matching.
pub fn tokenize_path(path: &str) -> (r: Vec<PathSegment>)
    ensures
        seg_views(r@) == tokenize_spec(path@),
{
    let n = path.unicode_len();
    if n == 0 || (n == 1 && path.get_char(0) == '/') {
        proof {
            reveal_strlit("/");
            if n == 1 {
                assert(path@ =~= "/"@);
            }
        }
        let mut r: Vec<PathSegment> = Vec::new();
        r.push(PathSegment::Root);
        proof {
            assert(seg_views(r@) =~= seq![SegView::Root]);
        }
        return r;
    }
    proof {
        reveal_strlit("/");
        if path@ == "/"@ {
            assert(path@.len() == 1 && path@[0] == '/');
        }
    }
    let pieces = split_nonempty(path, '/');
    let mut r: Vec<PathSegment> = Vec::new();
    let count = pieces.len();
    for k in 0..count
        invariant
            count == pieces@.len(),
            str_views(pieces@) == split_from(path@, '/', 0),
            seg_views(r@) =~= split_from(path@, '/', 0).take(k as int).map_values(
                |t: Seq<char>| SegView::Literal(t),
            ),
    {
        let ghost r_before = r@;
        r.push(PathSegment::Literal(pieces[k].clone()));
        proof {
            assert(seg_views(r@) =~= seg_views(r_before).push(SegView::Literal(pieces@[k as int]@)));
            assert(str_views(pieces@)[k as int] == pieces@[k as int]@);
            assert(seg_views(r@) =~= split_from(path@, '/', 0).take(k + 1).map_values(
                |t: Seq<char>| SegView::Literal(t),
            ));
        }
    }
    proof {
        assert(split_from(path@, '/', 0).take(count as int) =~= split_from(path@, '/', 0));
        assert(seg_views(r@) =~= tokenize_spec(path@));
    }
    r
}

} // verus!
