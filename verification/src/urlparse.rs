//! Taking a request target apart: the path, the query string, and the
//! decoded query pairs. The query decoding follows the form-urlencoded
//! rules: pairs split on `&` with empty pieces dropped, the first `=`
//! splits key from value, `+` decodes to a space, and `%XY` decodes to
//! the byte the two hex digits name; a piece whose decoded bytes are no
//! valid UTF-8 is kept verbatim.

use vstd::prelude::*;
use crate::segment::first_sep_at;
use crate::segment::lemma_first_sep_at_bounds;
use crate::segment::split_from;
use crate::segment::split_nonempty;
use crate::statics::starts_with;
use crate::statics::str_starts_with;
use crate::text::string_from_utf8;
use vstd::string::StrSliceExecFns;
use vstd::string::StringExecFns;
use vstd::utf8::decode_utf8;
use vstd::utf8::valid_utf8;

verus! {

/// The value of an ASCII hex digit, or 16 when the byte is none.
pub open spec fn hex_val(b: u8) -> int {
    if 48 <= b <= 57 {
        b - 48
    } else if 65 <= b <= 70 {
        b - 55
    } else if 97 <= b <= 102 {
        b - 87
    } else {
        16
    }
}

/// True of the ASCII code of a hex digit.
pub open spec fn is_hex_digit(b: u8) -> bool {
    hex_val(b) < 16
}

/// The form-urlencoded decoding of a byte sequence: `+` becomes a
/// space, `%XY` with two hex digits becomes one byte, everything else
/// stays.
pub open spec fn pct_bytes(b: Seq<u8>) -> Seq<u8>
    decreases b.len(),
{
    if b.len() == 0 {
        Seq::empty()
    } else if b[0] == 43 {
        seq![32u8] + pct_bytes(b.drop_first())
    } else if b[0] == 37 && b.len() >= 3 && is_hex_digit(b[1]) && is_hex_digit(b[2]) {
        seq![(hex_val(b[1]) * 16 + hex_val(b[2])) as u8] + pct_bytes(b.skip(3))
    } else {
        seq![b[0]] + pct_bytes(b.drop_first())
    }
}

/// The decoded text of one form-urlencoded piece: its bytes decoded,
/// read back as UTF-8; the piece itself when that fails.
pub open spec fn pp_decode(piece: Seq<char>) -> Seq<char> {
    let bs = pct_bytes(vstd::utf8::encode_utf8(piece));
    if valid_utf8(bs) {
        decode_utf8(bs)
    } else {
        piece
    }
}

/// Decodes one form-urlencoded piece.
pub fn pp_decode_str(piece: &str) -> (r: String)
    ensures
        r@ == pp_decode(piece@),
{
    let bytes = piece.as_bytes_vec();
    let n = bytes.len();
    let mut out: Vec<u8> = Vec::new();
    let mut i: usize = 0;
    proof {
        assert(bytes@.skip(0) =~= bytes@);
    }
    while i < n
        invariant
            n == bytes@.len(),
            i <= n,
            out@ + pct_bytes(bytes@.skip(i as int)) =~= pct_bytes(bytes@),
        decreases n - i,
    {
        let b = bytes[i];
        let ghost out_before = out@;
        if b == 43 {
            out.push(32);
            proof {
                assert(bytes@.skip(i as int).drop_first() =~= bytes@.skip(i + 1));
                assert(out@ =~= out_before.push(32u8));
            }
            i = i + 1;
        } else if b == 37 && n - i >= 3 && hex_digit_val(bytes[i + 1]) < 16 && hex_digit_val(
            bytes[i + 2],
        ) < 16 {
            let hi = hex_digit_val(bytes[i + 1]);
            let lo = hex_digit_val(bytes[i + 2]);
            out.push(hi * 16 + lo);
            proof {
                assert(bytes@.skip(i as int).skip(3) =~= bytes@.skip(i + 3));
                assert(bytes@.skip(i as int)[1] == bytes@[i + 1]);
                assert(bytes@.skip(i as int)[2] == bytes@[i + 2]);
            }
            i = i + 3;
        } else {
            out.push(b);
            proof {
                assert(bytes@.skip(i as int).drop_first() =~= bytes@.skip(i + 1));
                if b == 37 && n - i >= 3 {
                    assert(bytes@.skip(i as int)[1] == bytes@[i + 1]);
                    assert(bytes@.skip(i as int)[2] == bytes@[i + 2]);
                }
            }
            i = i + 1;
        }
    }
    proof {
        assert(bytes@.skip(n as int) =~= Seq::<u8>::empty());
        assert(out@ =~= pct_bytes(vstd::utf8::encode_utf8(piece@)));
    }
    match string_from_utf8(out) {
        Some(s) => s,
        None => piece.to_owned(),
    }
}

/// The value of a hex digit byte, or 16.
fn hex_digit_val(b: u8) -> (r: u8)
    ensures
        r as int == hex_val(b),
{
    if 48 <= b && b <= 57 {
        b - 48
    } else if 65 <= b && b <= 70 {
        b - 55
    } else if 97 <= b && b <= 102 {
        b - 87
    } else {
        16
    }
}

/// The key and value a query piece decodes to: cut at the first `=`
/// (a piece without one is all key), both halves decoded.
pub open spec fn pair_of_piece(piece: Seq<char>) -> (Seq<char>, Seq<char>) {
    let eq = first_sep_at(piece, '=', 0);
    if eq < piece.len() {
        (pp_decode(piece.take(eq)), pp_decode(piece.skip(eq + 1)))
    } else {
        (pp_decode(piece), Seq::empty())
    }
}

/// The decoded pairs of a query string: its nonempty `&`-separated
/// pieces, each cut at its first `=` and decoded.
pub open spec fn query_pairs_of(q: Seq<char>) -> Seq<(Seq<char>, Seq<char>)> {
    split_from(q, '&', 0).map_values(|p: Seq<char>| pair_of_piece(p))
}

/// The views of a string pair list.
pub open spec fn pair_views(ps: Seq<(String, String)>) -> Seq<(Seq<char>, Seq<char>)> {
    ps.map_values(|p: (String, String)| (p.0@, p.1@))
}

/// The index of the first `c` in `s`, or its length.
pub fn find_char(s: &str, c: char) -> (r: usize)
    ensures
        r as int == first_sep_at(s@, c, 0),
{
    let n = s.unicode_len();
    let mut j: usize = 0;
    loop
        invariant
            j <= n,
            n == s@.len(),
            first_sep_at(s@, c, 0) == first_sep_at(s@, c, j as int),
        ensures
            j <= n,
            first_sep_at(s@, c, 0) == j as int,
        decreases n - j,
    {
        if j == n {
            break;
        }
        if s.get_char(j) == c {
            break;
        }
        j = j + 1;
    }
    j
}

/// Decodes a query string (or an url-encoded body) into its pairs.
pub fn parse_query_pairs(q: &str) -> (r: Vec<(String, String)>)
    ensures
        pair_views(r@) == query_pairs_of(q@),
{
    let pieces = split_nonempty(q, '&');
    let mut out: Vec<(String, String)> = Vec::new();
    let n = pieces.len();
    for i in 0..n
        invariant
            n == pieces@.len(),
            crate::segment::str_views(pieces@) == split_from(q@, '&', 0),
            pair_views(out@) =~= query_pairs_of(q@).take(i as int),
    {
        let piece = &pieces[i];
        proof {
            assert(crate::segment::str_views(pieces@)[i as int] == pieces@[i as int]@);
            assert(query_pairs_of(q@)[i as int] == pair_of_piece(piece@));
        }
        let eq = find_char(piece.as_str(), '=');
        let plen = piece.as_str().unicode_len();
        let ghost out_before = out@;
        if eq < plen {
            proof {
                lemma_first_sep_at_bounds(piece@, '=', 0);
            }
            let key = pp_decode_str(piece.as_str().substring_char(0, eq));
            let val = pp_decode_str(piece.as_str().substring_char(eq + 1, plen));
            proof {
                assert(piece@.subrange(0, eq as int) =~= piece@.take(eq as int));
                assert(piece@.subrange(eq + 1, plen as int) =~= piece@.skip(eq + 1));
            }
            out.push((key, val));
        } else {
            let key = pp_decode_str(piece.as_str());
            out.push((key, String::new()));
        }
        proof {
            assert(pair_views(out@) =~= pair_views(out_before).push(pair_of_piece(piece@)));
            assert(pair_views(out@) =~= query_pairs_of(q@).take(i + 1));
        }
    }
    proof {
        assert(query_pairs_of(q@).take(n as int) =~= query_pairs_of(q@));
    }
    out
}

/// The request path inside a request target: everything before the
/// first `?` or `#`; an absolute-form target contributes what follows
/// its authority, or `/` when nothing does.
pub open spec fn request_path_of(url: Seq<char>) -> Seq<char> {
    let no_frag = url.take(first_sep_at(url, '#', 0));
    let raw = no_frag.take(first_sep_at(no_frag, '?', 0));
    if starts_with(raw, "http://"@) {
        path_of_authority_form(raw.skip(7))
    } else if starts_with(raw, "https://"@) {
        path_of_authority_form(raw.skip(8))
    } else {
        raw
    }
}

/// The path part after an authority: from its first `/` on, or `/`
/// when it has none.
pub open spec fn path_of_authority_form(rest: Seq<char>) -> Seq<char> {
    let slash = first_sep_at(rest, '/', 0);
    if slash < rest.len() {
        rest.skip(slash)
    } else {
        "/"@
    }
}

/// The query string inside a request target: everything between the
/// first `?` and the fragment, empty when the target has no query.
pub open spec fn request_query_of(url: Seq<char>) -> Seq<char> {
    let no_frag = url.take(first_sep_at(url, '#', 0));
    let q = first_sep_at(no_frag, '?', 0);
    if q < no_frag.len() {
        no_frag.skip(q + 1)
    } else {
        Seq::empty()
    }
}

/// Cuts the path out of a request target.
pub fn extract_request_path(url: &str) -> (r: String)
    ensures
        r@ == request_path_of(url@),
{
    let hash = find_char(url, '#');
    proof {
        lemma_first_sep_at_bounds(url@, '#', 0);
    }
    let no_frag = url.substring_char(0, hash);
    proof {
        assert(no_frag@ =~= url@.take(first_sep_at(url@, '#', 0)));
    }
    let q = find_char(no_frag, '?');
    proof {
        lemma_first_sep_at_bounds(no_frag@, '?', 0);
    }
    let raw = no_frag.substring_char(0, q);
    proof {
        assert(raw@ =~= no_frag@.take(first_sep_at(no_frag@, '?', 0)));
    }
    if str_starts_with(raw, "http://") {
        let rlen = raw.unicode_len();
        proof {
            reveal_strlit("http://");
        }
        let rest = raw.substring_char(7, rlen);
        proof {
            reveal_strlit("http://");
            assert(rest@ =~= raw@.skip(7));
        }
        path_after_authority(rest)
    } else if str_starts_with(raw, "https://") {
        let rlen = raw.unicode_len();
        proof {
            reveal_strlit("https://");
        }
        let rest = raw.substring_char(8, rlen);
        proof {
            reveal_strlit("https://");
            assert(rest@ =~= raw@.skip(8));
        }
        path_after_authority(rest)
    } else {
        raw.to_owned()
    }
}

/// Cuts the path out of what follows an authority.
fn path_after_authority(rest: &str) -> (r: String)
    ensures
        r@ == path_of_authority_form(rest@),
{
    let slash = find_char(rest, '/');
    let n = rest.unicode_len();
    if slash < n {
        proof {
            lemma_first_sep_at_bounds(rest@, '/', 0);
        }
        let path = rest.substring_char(slash, n);
        proof {
            assert(path@ =~= rest@.skip(first_sep_at(rest@, '/', 0)));
        }
        path.to_owned()
    } else {
        "/".to_owned()
    }
}

/// Cuts the query out of a request target.
pub fn extract_request_query(url: &str) -> (r: String)
    ensures
        r@ == request_query_of(url@),
{
    let hash = find_char(url, '#');
    proof {
        lemma_first_sep_at_bounds(url@, '#', 0);
    }
    let no_frag = url.substring_char(0, hash);
    proof {
        assert(no_frag@ =~= url@.take(first_sep_at(url@, '#', 0)));
    }
    let q = find_char(no_frag, '?');
    let n = no_frag.unicode_len();
    if q < n {
        let query = no_frag.substring_char(q + 1, n);
        proof {
            assert(query@ =~= no_frag@.skip(first_sep_at(no_frag@, '?', 0) + 1));
        }
        query.to_owned()
    } else {
        String::new()
    }
}

} // verus!
