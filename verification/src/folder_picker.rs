//! `file://` URIs from the desktop's folder chooser, as filesystem paths.
use vstd::prelude::*;

use crate::text::{
    bytes_of, char_pos, char_pos_from, chars_of, from_utf8_lossy, slice_of, starts_with,
    strip_prefix, strip_prefix_str, string_from, utf8_bytes, utf8_lossy,
};

verus! {

/// The value of an ASCII hex digit.
pub open spec fn hex_val(b: u8) -> Option<u8> {
    if 48 <= b && b <= 57 {
        Some((b - 48) as u8)
    } else if 97 <= b && b <= 102 {
        Some((b - 97 + 10) as u8)
    } else if 65 <= b && b <= 70 {
        Some((b - 65 + 10) as u8)
    } else {
        None
    }
}

pub fn from_hex(b: u8) -> (r: Option<u8>)
    ensures
        r == hex_val(b),
{
    if 48 <= b && b <= 57 {
        Some(b - 48)
    } else if 97 <= b && b <= 102 {
        Some(b - 97 + 10)
    } else if 65 <= b && b <= 70 {
        Some(b - 65 + 10)
    } else {
        None
    }
}

/// `%XX` escapes replaced by the byte they encode; a `%` without two hex
/// digits after it stays as it is.
pub open spec fn percent_decoded(b: Seq<u8>) -> Seq<u8>
    decreases b.len(),
{
    if b.len() == 0 {
        Seq::empty()
    } else if b[0] == 37 && 2 < b.len() && hex_val(b[1]) is Some && hex_val(b[2]) is Some {
        seq![(hex_val(b[1])->0 * 16 + hex_val(b[2])->0) as u8] + percent_decoded(b.skip(3))
    } else {
        seq![b[0]] + percent_decoded(b.skip(1))
    }
}

/// Decode `%XX` escapes (then read the bytes as UTF-8, lossily).
pub fn percent_decode(s: &str) -> (r: String)
    ensures
        r@ == utf8_lossy(percent_decoded(utf8_bytes(s@))),
{
    let bytes = bytes_of(s);
    let mut out: Vec<u8> = Vec::new();
    let mut i: usize = 0;
    proof {
        assert(bytes@.skip(0) =~= bytes@);
        assert(out@ + percent_decoded(bytes@) =~= percent_decoded(bytes@));
    }
    while i < bytes.len()
        invariant
            i <= bytes@.len(),
            out@ + percent_decoded(bytes@.skip(i as int)) == percent_decoded(bytes@),
        decreases bytes.len() - i,
    {
        let ghost t = bytes@.skip(i as int);
        proof {
            assert(t[0] == bytes@[i as int]);
        }
        if bytes[i] == 37 && 2 < bytes.len() - i {
            proof {
                assert(t[1] == bytes@[i + 1]);
                assert(t[2] == bytes@[i + 2]);
            }
            match (from_hex(bytes[i + 1]), from_hex(bytes[i + 2])) {
                (Some(hi), Some(lo)) => {
                    let v: u8 = hi * 16 + lo;
                    proof {
                        assert(t.skip(3) =~= bytes@.skip(i + 3));
                        assert(out@.push(v) + percent_decoded(bytes@.skip(i + 3)) =~= out@ + (seq![v]
                            + percent_decoded(t.skip(3))));
                    }
                    out.push(v);
                    i = i + 3;
                    continue;
                },
                _ => {},
            }
        }
        proof {
            assert(t.skip(1) =~= bytes@.skip(i + 1));
            assert(out@.push(bytes@[i as int]) + percent_decoded(bytes@.skip(i + 1)) =~= out@ + (
            seq![t[0]] + percent_decoded(t.skip(1))));
        }
        out.push(bytes[i]);
        i = i + 1;
    }
    proof {
        assert(bytes@.skip(bytes@.len() as int) =~= Seq::<u8>::empty());
        assert(out@ + Seq::<u8>::empty() =~= out@);
    }
    from_utf8_lossy(&out)
}

/// The path part of a `file://` URI: after the host segment, if any.
pub open spec fn uri_path(uri: Seq<char>) -> Option<Seq<char>> {
    match strip_prefix(uri, "file://"@) {
        None => None,
        Some(rest) => if starts_with(rest, "/"@) {
            Some(rest)
        } else if char_pos(rest, '/') < rest.len() {
            Some(rest.skip(char_pos(rest, '/') as int))
        } else {
            None
        },
    }
}

/// Convert a `file://` URI from the portal into a filesystem path.
pub fn file_uri_to_path(uri: &str) -> (r: Option<String>)
    ensures
        match r {
            Some(p) => uri_path(uri@) matches Some(enc) && p@ == utf8_lossy(
                percent_decoded(utf8_bytes(enc)),
            ),
            None => uri_path(uri@) is None,
        },
{
    let u = chars_of(uri);
    let rest = match strip_prefix_str(&u, "file://") {
        None => return None,
        Some(r) => r,
    };
    let enc = if crate::text::starts_with_str(&rest, "/") {
        rest
    } else {
        let slash = char_pos_from(&rest, '/', 0);
        proof {
            assert(rest@.skip(0) =~= rest@);
        }
        if slash >= rest.len() {
            return None;
        }
        let e = slice_of(&rest, slash, rest.len());
        proof {
            assert(e@ =~= rest@.skip(slash as int));
        }
        e
    };
    let s = string_from(&enc);
    Some(percent_decode(s.as_str()))
}

} // verus!
