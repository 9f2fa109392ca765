use vstd::prelude::*;

verus! {

/// Mathematical Fibonacci sequence: 0, 1, 1, 2, 3, 5, 8, ...
pub open spec fn spec_fibonaci(n: nat) -> nat
    decreases n,
{
    if n == 0 {
        0
    } else if n <= 2 {
        1
    } else {
        spec_fibonaci((n - 1) as nat) + spec_fibonaci((n - 2) as nat)
    }
}

/// The Fibonacci sequence never shrinks as its argument grows.
proof fn lemma_fibonaci_monotonic(i: nat, j: nat)
    requires
        i <= j,
    ensures
        spec_fibonaci(i) <= spec_fibonaci(j),
    decreases j - i,
{
    if i < j {
        lemma_fibonaci_monotonic(i, (j - 1) as nat);
    }
}

/// The largest Fibonacci number that fits in an `i64`.
proof fn lemma_fibonaci_92()
    ensures
        spec_fibonaci(92) == 7540113804746346429,
{
    assert(spec_fibonaci(0) == 0);
    assert(spec_fibonaci(1) == 1);
    assert(spec_fibonaci(2) == 1);
    assert(spec_fibonaci(3) == 2);
    assert(spec_fibonaci(4) == 3);
    assert(spec_fibonaci(5) == 5);
    assert(spec_fibonaci(6) == 8);
    assert(spec_fibonaci(7) == 13);
    assert(spec_fibonaci(8) == 21);
    assert(spec_fibonaci(9) == 34);
    assert(spec_fibonaci(10) == 55);
    assert(spec_fibonaci(11) == 89);
    assert(spec_fibonaci(12) == 144);
    assert(spec_fibonaci(13) == 233);
    assert(spec_fibonaci(14) == 377);
    assert(spec_fibonaci(15) == 610);
    assert(spec_fibonaci(16) == 987);
    assert(spec_fibonaci(17) == 1597);
    assert(spec_fibonaci(18) == 2584);
    assert(spec_fibonaci(19) == 4181);
    assert(spec_fibonaci(20) == 6765);
    assert(spec_fibonaci(21) == 10946);
    assert(spec_fibonaci(22) == 17711);
    assert(spec_fibonaci(23) == 28657);
    assert(spec_fibonaci(24) == 46368);
    assert(spec_fibonaci(25) == 75025);
    assert(spec_fibonaci(26) == 121393);
    assert(spec_fibonaci(27) == 196418);
    assert(spec_fibonaci(28) == 317811);
    assert(spec_fibonaci(29) == 514229);
    assert(spec_fibonaci(30) == 832040);
    assert(spec_fibonaci(31) == 1346269);
    assert(spec_fibonaci(32) == 2178309);
    assert(spec_fibonaci(33) == 3524578);
    assert(spec_fibonaci(34) == 5702887);
    assert(spec_fibonaci(35) == 9227465);
    assert(spec_fibonaci(36) == 14930352);
    assert(spec_fibonaci(37) == 24157817);
    assert(spec_fibonaci(38) == 39088169);
    assert(spec_fibonaci(39) == 63245986);
    assert(spec_fibonaci(40) == 102334155);
    assert(spec_fibonaci(41) == 165580141);
    assert(spec_fibonaci(42) == 267914296);
    assert(spec_fibonaci(43) == 433494437);
    assert(spec_fibonaci(44) == 701408733);
    assert(spec_fibonaci(45) == 1134903170);
    assert(spec_fibonaci(46) == 1836311903);
    assert(spec_fibonaci(47) == 2971215073);
    assert(spec_fibonaci(48) == 4807526976);
    assert(spec_fibonaci(49) == 7778742049);
    assert(spec_fibonaci(50) == 12586269025);
    assert(spec_fibonaci(51) == 20365011074);
    assert(spec_fibonaci(52) == 32951280099);
    assert(spec_fibonaci(53) == 53316291173);
    assert(spec_fibonaci(54) == 86267571272);
    assert(spec_fibonaci(55) == 139583862445);
    assert(spec_fibonaci(56) == 225851433717);
    assert(spec_fibonaci(57) == 365435296162);
    assert(spec_fibonaci(58) == 591286729879);
    assert(spec_fibonaci(59) == 956722026041);
    assert(spec_fibonaci(60) == 1548008755920);
    assert(spec_fibonaci(61) == 2504730781961);
    assert(spec_fibonaci(62) == 4052739537881);
    assert(spec_fibonaci(63) == 6557470319842);
    assert(spec_fibonaci(64) == 10610209857723);
    assert(spec_fibonaci(65) == 17167680177565);
    assert(spec_fibonaci(66) == 27777890035288);
    assert(spec_fibonaci(67) == 44945570212853);
    assert(spec_fibonaci(68) == 72723460248141);
    assert(spec_fibonaci(69) == 117669030460994);
    assert(spec_fibonaci(70) == 190392490709135);
    assert(spec_fibonaci(71) == 308061521170129);
    assert(spec_fibonaci(72) == 498454011879264);
    assert(spec_fibonaci(73) == 806515533049393);
    assert(spec_fibonaci(74) == 1304969544928657);
    assert(spec_fibonaci(75) == 2111485077978050);
    assert(spec_fibonaci(76) == 3416454622906707);
    assert(spec_fibonaci(77) == 5527939700884757);
    assert(spec_fibonaci(78) == 8944394323791464);
    assert(spec_fibonaci(79) == 14472334024676221);
    assert(spec_fibonaci(80) == 23416728348467685);
    assert(spec_fibonaci(81) == 37889062373143906);
    assert(spec_fibonaci(82) == 61305790721611591);
    assert(spec_fibonaci(83) == 99194853094755497);
    assert(spec_fibonaci(84) == 160500643816367088);
    assert(spec_fibonaci(85) == 259695496911122585);
    assert(spec_fibonaci(86) == 420196140727489673);
    assert(spec_fibonaci(87) == 679891637638612258);
    assert(spec_fibonaci(88) == 1100087778366101931);
    assert(spec_fibonaci(89) == 1779979416004714189);
    assert(spec_fibonaci(90) == 2880067194370816120);
    assert(spec_fibonaci(91) == 4660046610375530309);
    assert(spec_fibonaci(92) == 7540113804746346429);
}

/// Computes the `num`-th Fibonacci number.
///
/// Negative inputs are excluded: on them the recursion would never reach a
/// base case. Inputs above 92 are excluded: their Fibonacci number does not
/// fit in an `i64`.
pub fn fibonaci(num: i64) -> (r: i64)
    requires
        0 <= num <= 92,
    ensures
        r == spec_fibonaci(num as nat),
    decreases num,
{
    match num {
        0 => 0,
        1 => 1,
        2 => 1,
        _ => {
            let left: i64 = fibonaci(num - 1);
            let right: i64 = fibonaci(num - 2);
            proof {
                lemma_fibonaci_92();
                lemma_fibonaci_monotonic(num as nat, 92);
            }
            left + right
        },
    }
}

} // verus!
