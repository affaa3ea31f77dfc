//! Matching a tokenized request path against a route's segment pattern,
//! capturing the text under each variable segment.

use vstd::prelude::*;
use crate::segment::PathSegment;
use crate::segment::SegView;
use crate::segment::seg_views;
use crate::segment::tokenize_spec;
use crate::segment::lemma_tokenize_well_formed;
use crate::segment::well_formed_tokens;
use crate::value::Value;
use crate::value::record_lookup;
use crate::value::record_insert;
use crate::value::record_keys_unique;

verus! {

/// How one request token fares against one route segment: root only
/// against root, a literal against an equal literal, and a literal
/// against any variable; nothing else matches.
pub open spec fn segment_matches(tok: SegView, seg: SegView) -> bool {
    match (tok, seg) {
        (SegView::Root, SegView::Root) => true,
        (SegView::Literal(t), SegView::Literal(u)) => t == u,
        (SegView::Literal(_), SegView::Variable { .. }) => true,
        _ => false,
    }
}

/// A token sequence matches a segment pattern when both have the same
/// nonzero length and every token matches its segment.
pub open spec fn segments_match(toks: Seq<SegView>, segs: Seq<SegView>) -> bool {
    &&& toks.len() == segs.len()
    &&& segs.len() > 0
    &&& forall|i: int| 0 <= i < segs.len() ==> segment_matches(toks[i], segs[i])
}

/// The text of a literal token.
pub open spec fn literal_text(tok: SegView) -> Seq<char>
    recommends
        tok is Literal,
{
    match tok {
        SegView::Literal(t) => t,
        _ => Seq::empty(),
    }
}

/// The text captured under `name`: the token at the rearmost variable
/// segment declared with that name, or nothing when no such segment
/// exists.
pub open spec fn capture_text(toks: Seq<SegView>, segs: Seq<SegView>, name: Seq<char>) -> Option<
    Seq<char>,
>
    decreases segs.len(),
{
    if segs.len() == 0 || toks.len() != segs.len() {
        None
    } else {
        let i = segs.len() - 1;
        if segs[i] matches SegView::Variable { name: n, .. } && n == name && toks[i] is Literal {
            Some(literal_text(toks[i]))
        } else {
            capture_text(toks.take(i), segs.take(i), name)
        }
    }
}

/// True when the record entry under a key is exactly the given text, or
/// both are absent.
pub open spec fn opt_text_matches(v: Option<Value>, t: Option<Seq<char>>) -> bool {
    match (v, t) {
        (Some(Value::Str(s)), Some(text)) => s@ == text,
        (None, None) => true,
        _ => false,
    }
}

/// Matches the request tokens against one route's segments; on success
/// returns the captured path variables as a record.
pub fn match_segments(toks: &Vec<PathSegment>, segs: &Vec<PathSegment>) -> (r: Option<
    Vec<(String, Value)>,
>)
    ensures
        r is Some <==> segments_match(seg_views(toks@), seg_views(segs@)),
        r matches Some(params) ==> forall|name: Seq<char>|
            opt_text_matches(
                #[trigger] record_lookup(params@, name),
                capture_text(seg_views(toks@), seg_views(segs@), name),
            ),
        r matches Some(params) ==> record_keys_unique(params@),
{
    let n = toks.len();
    if n != segs.len() || n == 0 {
        return None;
    }
    let ghost tokv = seg_views(toks@);
    let ghost segv = seg_views(segs@);
    let mut params: Vec<(String, Value)> = Vec::new();
    for i in 0..n
        invariant
            n == toks@.len(),
            n == segs@.len(),
            n > 0,
            tokv == seg_views(toks@),
            segv == seg_views(segs@),
            forall|j: int| 0 <= j < i ==> segment_matches(tokv[j], segv[j]),
            forall|name: Seq<char>|
                opt_text_matches(
                    #[trigger] record_lookup(params@, name),
                    capture_text(tokv.take(i as int), segv.take(i as int), name),
                ),
            record_keys_unique(params@),
    {
        let ghost params_before = params@;
        proof {
            assert(tokv[i as int] == toks@[i as int]@);
            assert(segv[i as int] == segs@[i as int]@);
        }
        match (&toks[i], &segs[i]) {
            (PathSegment::Root, PathSegment::Root) => {
                proof {
                    assert(toks@[i as int] is Root);
                    assert(tokv[i as int] is Root);
                    assert(segment_matches(tokv[i as int], segv[i as int]));
                    lemma_capture_skip(tokv, segv, i as int, params@);
                }
            },
            (PathSegment::Literal(t), PathSegment::Literal(u)) => {
                proof {
                    assert(toks@[i as int] is Literal);
                    assert(tokv[i as int] matches SegView::Literal(tt) && tt == t@);
                    assert(segv[i as int] matches SegView::Literal(uu) && uu == u@);
                }
                if !crate::text::str_eq(t.as_str(), u.as_str()) {
                    proof {
                        assert(!segment_matches(tokv[i as int], segv[i as int]));
                    }
                    return None;
                }
                proof {
                    assert(segment_matches(tokv[i as int], segv[i as int]));
                    lemma_capture_skip(tokv, segv, i as int, params@);
                }
            },
            (PathSegment::Literal(t), PathSegment::Variable { name, .. }) => {
                let captured = Value::Str(t.clone());
                let ghost cap = captured;
                record_insert(&mut params, name.clone(), captured);
                proof {
                    assert(tokv.take(i + 1).take(i as int) =~= tokv.take(i as int));
                    assert(segv.take(i + 1).take(i as int) =~= segv.take(i as int));
                    assert(tokv.take(i + 1)[i as int] == tokv[i as int]);
                    assert(segv.take(i + 1)[i as int] == segv[i as int]);
                    assert forall|name2: Seq<char>|
                        opt_text_matches(
                            #[trigger] record_lookup(params@, name2),
                            capture_text(tokv.take(i + 1), segv.take(i + 1), name2),
                        ) by {
                        if name2 == name@ {
                            assert(record_lookup(params@, name2) == Some(cap));
                        } else {
                            assert(record_lookup(params@, name2) == record_lookup(
                                params_before,
                                name2,
                            ));
                        }
                    }
                }
            },
            _ => {
                proof {
                    assert(!segment_matches(tokv[i as int], segv[i as int]));
                }
                return None;
            },
        }
    }
    proof {
        assert(tokv.take(n as int) =~= tokv);
        assert(segv.take(n as int) =~= segv);
    }
    Some(params)
}

/// When the segment at `i` is no variable, extending the match by it
/// adds no capture.
proof fn lemma_capture_skip(tokv: Seq<SegView>, segv: Seq<SegView>, i: int, params: Seq<(String, Value)>)
    requires
        0 <= i < segv.len(),
        tokv.len() == segv.len(),
        !(segv[i] is Variable),
        forall|name: Seq<char>|
            opt_text_matches(
                #[trigger] record_lookup(params, name),
                capture_text(tokv.take(i), segv.take(i), name),
            ),
    ensures
        forall|name: Seq<char>|
            opt_text_matches(
                #[trigger] record_lookup(params, name),
                capture_text(tokv.take(i + 1), segv.take(i + 1), name),
            ),
{
    assert(tokv.take(i + 1).take(i) =~= tokv.take(i));
    assert(segv.take(i + 1).take(i) =~= segv.take(i));
    assert(segv.take(i + 1)[i] == segv[i]);
    assert forall|name: Seq<char>|
        opt_text_matches(
            #[trigger] record_lookup(params, name),
            capture_text(tokv.take(i + 1), segv.take(i + 1), name),
        ) by {
        assert(capture_text(tokv.take(i + 1), segv.take(i + 1), name) == capture_text(
            tokv.take(i),
            segv.take(i),
            name,
        ));
    }
}

/// A pattern of a different segment count than the request's tokens
/// never matches, whatever the segments hold.
pub proof fn lemma_match_needs_equal_count(toks: Seq<SegView>, segs: Seq<SegView>)
    ensures
        toks.len() != segs.len() ==> !segments_match(toks, segs),
{
}

/// A variable segment always captures the corresponding request token's
/// literal text under its declared name — whatever that text is — as
/// long as no variable further right shadows the name.
pub proof fn lemma_variable_captures(toks: Seq<SegView>, segs: Seq<SegView>, i: int)
    requires
        segments_match(toks, segs),
        0 <= i < segs.len(),
        segs[i] is Variable,
        forall|j: int|
            i < j < segs.len() ==> !(#[trigger] segs[j] matches SegView::Variable { name: n, .. }
                && n == segs[i]->Variable_name),
    ensures
        capture_text(toks, segs, segs[i]->Variable_name) == Some(literal_text(toks[i])),
    decreases segs.len(),
{
    let last = segs.len() - 1;
    assert(segment_matches(toks[i], segs[i]));
    assert(toks[i] is Literal);
    if i == last {
    } else {
        assert(!(segs[last] matches SegView::Variable { name: n, .. }
            && n == segs[i]->Variable_name));
        let toks2 = toks.take(last);
        let segs2 = segs.take(last);
        assert(segments_match(toks2, segs2)) by {
            assert(forall|j: int| 0 <= j < segs2.len() ==> segs2[j] == segs[j] && toks2[j] == toks[j]);
        }
        lemma_variable_captures(toks2, segs2, i);
        assert(segs2[i] == segs[i]);
        assert(toks2[i] == toks[i]);
    }
}

/// The root pattern matches exactly the root path: the tokens of `path`
/// match the one-segment root pattern if and only if `path` is `/` or
/// empty.
pub proof fn lemma_root_matches_only_root(path: Seq<char>)
    ensures
        segments_match(tokenize_spec(path), seq![SegView::Root]) <==> (path.len() == 0 || path
            == "/"@),
{
    lemma_tokenize_well_formed(path);
    let toks = tokenize_spec(path);
    if path.len() == 0 || path == "/"@ {
        assert(toks == seq![SegView::Root]);
        assert(segment_matches(toks[0], seq![SegView::Root][0]));
    } else {
        if segments_match(toks, seq![SegView::Root]) {
            assert(toks.len() == 1);
            assert(well_formed_tokens(toks));
            if toks == seq![SegView::Root] {
                assert(tokenize_spec(path) == seq![SegView::Root]);
                assert(false) by {
                    lemma_root_token_only_for_root(path);
                }
            } else {
                assert(toks[0] is Literal);
                assert(!segment_matches(toks[0], SegView::Root));
            }
        }
    }
}

/// Only the root path tokenizes to the root token.
proof fn lemma_root_token_only_for_root(path: Seq<char>)
    requires
        path.len() != 0,
        path != "/"@,
    ensures
        tokenize_spec(path) != seq![SegView::Root],
{
    let toks = tokenize_spec(path);
    lemma_tokenize_well_formed(path);
    if toks == seq![SegView::Root] {
        assert(toks[0] is Root);
        assert(toks =~= tokenize_spec(path));
        assert(tokenize_spec(path)[0] is Literal || tokenize_spec(path).len() != 1
            || !(tokenize_spec(path)[0] is Root)) by {
            let pieces = crate::segment::split_from(path, '/', 0);
            if pieces.len() > 0 {
                assert(tokenize_spec(path)[0] == SegView::Literal(pieces[0]));
            }
        }
    }
}

} // verus!
