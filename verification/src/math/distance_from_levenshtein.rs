use vstd::prelude::*;

verus! {

use vstd::string::StringSliceAdditionalSpecFns;

/// The smallest of three naturals.
pub open spec fn min3(a: nat, b: nat, c: nat) -> nat {
    if a <= b && a <= c {
        a
    } else if b <= c {
        b
    } else {
        c
    }
}

/// Levenshtein edit distance between two byte strings: the least number of
/// single-byte insertions, deletions and substitutions turning one into the
/// other, defined by the classic recurrence on suffix-shortened strings.
pub open spec fn spec_levenshtein(a: Seq<u8>, b: Seq<u8>) -> nat
    decreases a.len() + b.len(),
{
    if a.len() == 0 {
        b.len()
    } else if b.len() == 0 {
        a.len()
    } else {
        let cost: nat = if a.last() == b.last() {
            0
        } else {
            1
        };
        min3(
            spec_levenshtein(a.drop_last(), b) + 1,
            spec_levenshtein(a, b.drop_last()) + 1,
            spec_levenshtein(a.drop_last(), b.drop_last()) + cost,
        )
    }
}

/// The distance never exceeds the length of the longer string.
proof fn lemma_levenshtein_le_max(a: Seq<u8>, b: Seq<u8>)
    ensures
        spec_levenshtein(a, b) <= if a.len() >= b.len() {
            a.len()
        } else {
            b.len()
        },
    decreases a.len() + b.len(),
{
    if a.len() != 0 && b.len() != 0 {
        lemma_levenshtein_le_max(a.drop_last(), b.drop_last());
    }
}

/// The recurrence restated over prefixes, as the dynamic program fills its
/// table: cell (i, j) follows from the three cells above and to the left.
proof fn lemma_levenshtein_step(a: Seq<u8>, b: Seq<u8>, i: int, j: int)
    requires
        1 <= i <= a.len(),
        1 <= j <= b.len(),
    ensures
        spec_levenshtein(a.take(i), b.take(j)) == min3(
            spec_levenshtein(a.take(i - 1), b.take(j)) + 1,
            spec_levenshtein(a.take(i), b.take(j - 1)) + 1,
            spec_levenshtein(a.take(i - 1), b.take(j - 1)) + if a[i - 1] == b[j - 1] {
                0nat
            } else {
                1nat
            },
        ),
{
    assert(a.take(i).drop_last() =~= a.take(i - 1));
    assert(b.take(j).drop_last() =~= b.take(j - 1));
    assert(a.take(i).last() == a[i - 1]);
    assert(b.take(j).last() == b[j - 1]);
}

/// Computes the Levenshtein distance between the bytes of `word` and the
/// bytes of `word2` with the usual dynamic program over a cross table.
///
/// The length bounds only exclude strings so large that a distance of
/// length-plus-one could not be formed in a machine word.
pub fn distance_from_levenshtein(word: &'static str, word2: &'static str) -> (r: u64)
    requires
        word.spec_bytes().len() < usize::MAX,
        word2.spec_bytes().len() < usize::MAX,
    ensures
        r == spec_levenshtein(word.spec_bytes(), word2.spec_bytes()),
{
    let ghost a: Seq<u8> = word.spec_bytes();
    let ghost b: Seq<u8> = word2.spec_bytes();
    let wb: &[u8] = word.as_bytes();
    let wb2: &[u8] = word2.as_bytes();
    let n: usize = wb.len();
    let n2: usize = wb2.len();
    let mut distance: Vec<Vec<u64>> = Vec::new();

    // first row of the table: distance from the empty prefix of `word`
    let mut first_row: Vec<u64> = Vec::new();
    let mut j: usize = 0;
    while j <= n2
        invariant
            j <= n2 + 1,
            n2 == b.len(),
            n2 < usize::MAX,
            first_row@.len() == j,
            forall|c: int| 0 <= c < j ==> first_row@[c] == c,
        decreases n2 + 1 - j,
    {
        first_row.push(j as u64);
        j = j + 1;
    }
    distance.push(first_row);

    proof {
        assert forall|c: int| 0 <= c <= n2 implies distance@[0][c] == spec_levenshtein(
            a.take(0),
            b.take(c),
        ) by {
            assert(a.take(0) =~= Seq::<u8>::empty());
            assert(b.take(c).len() == c);
        }
    }

    // remaining rows: one per non-empty prefix of `word`
    let mut i: usize = 1;
    while i <= n
        invariant
            1 <= i <= n + 1,
            n == a.len(),
            n2 == b.len(),
            n < usize::MAX,
            n2 < usize::MAX,
            wb@ == a,
            wb2@ == b,
            distance@.len() == i,
            forall|r: int| #![auto] 0 <= r < i ==> distance@[r].len() == n2 + 1,
            forall|r: int, c: int| #![auto]
                0 <= r < i && 0 <= c <= n2 ==> distance@[r][c] == spec_levenshtein(
                    a.take(r),
                    b.take(c),
                ),
        decreases n + 1 - i,
    {
        let mut row: Vec<u64> = Vec::new();
        row.push(i as u64);
        proof {
            assert(a.take(i as int).len() == i);
            assert(b.take(0) =~= Seq::<u8>::empty());
            assert(row@[0] == spec_levenshtein(a.take(i as int), b.take(0)));
        }
        let mut j: usize = 1;
        while j <= n2
            invariant
                1 <= i <= n,
                1 <= j <= n2 + 1,
                n == a.len(),
                n2 == b.len(),
                n < usize::MAX,
                n2 < usize::MAX,
                wb@ == a,
                wb2@ == b,
                distance@.len() == i,
                forall|r: int| #![auto] 0 <= r < i ==> distance@[r].len() == n2 + 1,
                forall|r: int, c: int| #![auto]
                    0 <= r < i && 0 <= c <= n2 ==> distance@[r][c] == spec_levenshtein(
                        a.take(r),
                        b.take(c),
                    ),
                row@.len() == j,
                forall|c: int| #![auto]
                    0 <= c < j ==> row@[c] == spec_levenshtein(a.take(i as int), b.take(c)),
            decreases n2 + 1 - j,
        {
            // cost: 0 when the two bytes agree, 1 otherwise
            let cost: u64 = if wb[i - 1] == wb2[j - 1] {
                0
            } else {
                1
            };
            proof {
                lemma_levenshtein_le_max(a.take(i as int - 1), b.take(j as int));
                lemma_levenshtein_le_max(a.take(i as int), b.take(j as int - 1));
                lemma_levenshtein_le_max(a.take(i as int - 1), b.take(j as int - 1));
                lemma_levenshtein_step(a, b, i as int, j as int);
            }
            let top: u64 = distance[i - 1][j] + 1;
            let left: u64 = row[j - 1] + 1;
            let top_left: u64 = distance[i - 1][j - 1] + cost;
            let best: u64 = if top <= left && top <= top_left {
                top
            } else if left <= top_left {
                left
            } else {
                top_left
            };
            row.push(best);
            j = j + 1;
        }
        distance.push(row);
        i = i + 1;
    }

    proof {
        assert(a.take(n as int) =~= a);
        assert(b.take(n2 as int) =~= b);
    }
    distance[n][n2]
}

} // verus!
