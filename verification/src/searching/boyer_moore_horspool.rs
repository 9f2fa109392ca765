use vstd::prelude::*;

verus! {

use vstd::string::StringSliceAdditionalSpecFns;
use vstd::utf8::encode_utf8;

/// `needle` occurs in `haystack` starting at position `p`.
pub open spec fn occurs_at(haystack: Seq<u8>, needle: Seq<u8>, p: int) -> bool {
    &&& 0 <= p
    &&& p + needle.len() <= haystack.len()
    &&& forall|k: int| 0 <= k < needle.len() ==> haystack[p + k] == needle[k]
}

/// A shift of `s` on mismatch byte `c` never jumps past an occurrence: every
/// position of `c` among all but the last needle byte keeps `s` at or below
/// the distance from that position to the last needle byte.
spec fn safe_shift(needle: Seq<u8>, c: u8, s: int) -> bool {
    &&& 1 <= s <= needle.len()
    &&& forall|k: int| 0 <= k < needle.len() - 1 && needle[k] == c ==> s <= needle.len() - 1 - k
}

/// The shift a table entry stands for: a zero entry means the byte does not
/// occur before the last needle byte, and the whole needle length is used.
spec fn shift_for(table: Seq<usize>, needle: Seq<u8>, c: u8) -> int {
    if table[c as int] == 0 {
        needle.len() as int
    } else {
        table[c as int] as int
    }
}

/// Builds the bad-character table of `word`: for each byte among all but the
/// last, how far the window may slide when that byte is under the last
/// needle position, keyed by byte value.
fn bad_char_table(word: &'static str) -> (table: Vec<usize>)
    requires
        word.spec_bytes().len() >= 1,
    ensures
        table@.len() == 256,
        forall|c: u8| safe_shift(word.spec_bytes(), c, shift_for(table@, word.spec_bytes(), c)),
{
    let nb: &[u8] = word.as_bytes();
    let m: usize = nb.len();
    let mut table: Vec<usize> = vec![0usize; 256];
    let mut pos: usize = 0;
    while pos + 1 < m
        invariant
            m == nb@.len(),
            m >= 1,
            nb@ == word.spec_bytes(),
            pos <= m - 1,
            table@.len() == 256,
            forall|c: u8| #![auto] table@[c as int] <= m - 1,
            forall|k: int| #![auto]
                0 <= k < pos ==> table@[nb@[k] as int] != 0 && table@[nb@[k] as int] <= m - 1
                    - k,
        decreases m - pos,
    {
        let c: u8 = nb[pos];
        table[c as usize] = m - 1 - pos;
        pos = pos + 1;
    }
    proof {
        assert forall|c: u8| safe_shift(nb@, c, shift_for(table@, nb@, c)) by {
            if table@[c as int] == 0 {
                assert forall|k: int| 0 <= k < nb@.len() - 1 && nb@[k] == c implies m as int
                    <= nb@.len() - 1 - k by {
                    assert(table@[nb@[k] as int] != 0);
                }
            } else {
                assert forall|k: int| 0 <= k < nb@.len() - 1 && nb@[k] == c implies table@[c as int]
                    <= nb@.len() - 1 - k by {
                    assert(table@[nb@[k] as int] <= m - 1 - k);
                }
            }
        }
    }
    table
}

/// Finds the first occurrence of the bytes of `needle` in the bytes of
/// `haystack` with the Boyer-Moore-Horspool algorithm, returning its byte
/// position, or -1 when `needle` occurs nowhere in `haystack`.
///
/// An empty needle is excluded: the table has no last-byte position to key
/// its shifts on. The haystack bound only excludes inputs whose positions
/// could not be told apart from the not-found sentinel in an `i64`.
pub fn boyer_moore_horspool(needle: &'static str, haystack: String) -> (r: i64)
    requires
        needle.spec_bytes().len() >= 1,
        encode_utf8(haystack@).len() <= i64::MAX,
    ensures
        r == -1 <==> (forall|p: int| !occurs_at(encode_utf8(haystack@), needle.spec_bytes(), p)),
        r != -1 ==> occurs_at(encode_utf8(haystack@), needle.spec_bytes(), r as int) && (forall|
            p: int,
        |
            0 <= p < r ==> !occurs_at(encode_utf8(haystack@), needle.spec_bytes(), p)),
{
    let table: Vec<usize> = bad_char_table(needle);
    let nb: &[u8] = needle.as_bytes();
    let hb: &[u8] = haystack.as_str().as_bytes();
    let m: usize = nb.len();
    let n: usize = hb.len();

    let mut skip: usize = 0;
    while n - skip >= m
        invariant
            skip <= n,
            m >= 1,
            m == nb@.len(),
            n == hb@.len(),
            n <= i64::MAX,
            nb@ == needle.spec_bytes(),
            hb@ == encode_utf8(haystack@),
            table@.len() == 256,
            forall|c: u8| safe_shift(nb@, c, shift_for(table@, nb@, c)),
            forall|p: int| 0 <= p < skip ==> !occurs_at(hb@, nb@, p),
        decreases n - skip,
    {
        // compare right to left under the current window
        let mut i: usize = m - 1;
        while hb[skip + i] == nb[i]
            invariant
                i <= m - 1,
                skip + m <= n,
                m >= 1,
                m == nb@.len(),
                n == hb@.len(),
                n <= i64::MAX,
                nb@ == needle.spec_bytes(),
                hb@ == encode_utf8(haystack@),
                forall|k: int| i < k < m ==> hb@[skip + k] == nb@[k],
                forall|p: int| 0 <= p < skip ==> !occurs_at(hb@, nb@, p),
            decreases i,
        {
            if i == 0 {
                // the whole needle matched: this is the leftmost occurrence
                proof {
                    assert(occurs_at(hb@, nb@, skip as int));
                }
                return skip as i64;
            }
            i = i - 1;
        }

        // mismatch at offset i: slide the window by the table entry for the
        // haystack byte under the last needle position
        let c: u8 = hb[skip + m - 1];
        let entry: usize = table[c as usize];
        let shift: usize = if entry == 0 {
            m
        } else {
            entry
        };
        proof {
            assert(hb@[skip + i] != nb@[i as int]);
            assert(!occurs_at(hb@, nb@, skip as int));
            assert(safe_shift(nb@, c, shift_for(table@, nb@, c)));
            assert(shift == shift_for(table@, nb@, c));
            assert forall|p: int| skip < p < skip + shift implies !occurs_at(hb@, nb@, p) by {
                if occurs_at(hb@, nb@, p) {
                    if p <= skip + m - 1 {
                        let k: int = skip + m - 1 - p;
                        assert(0 <= k < m - 1);
                        assert(hb@[p + k] == nb@[k]);
                        assert(nb@[k] == c);
                        assert(shift <= m - 1 - k);
                    }
                }
            }
        }
        skip = skip + shift;
    }
    proof {
        assert forall|p: int| !occurs_at(hb@, nb@, p) by {
            if p >= skip {
                assert(p + m > n);
            }
        }
    }
    -1
}

} // verus!
