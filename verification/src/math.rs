//! The Fibonacci sequence over `u64`, its inverses, and small integer helpers.

use vstd::prelude::*;

verus! {

/// The Fibonacci numbers: 0, 1, 1, 2, 3, 5, 8, ...
pub open spec fn fib_spec(n: nat) -> nat
    decreases n,
{
    if n == 0 {
        0
    } else if n == 1 {
        1
    } else {
        fib_spec((n - 1) as nat) + fib_spec((n - 2) as nat)
    }
}

/// Whether the Fibonacci number of index `n` can be held in a `u64`.
pub open spec fn fib_fits(n: nat) -> bool {
    fib_spec(n) <= u64::MAX
}

/// The Fibonacci numbers never decrease.
pub proof fn lemma_fib_monotonic(i: nat, j: nat)
    requires
        i <= j,
    ensures
        fib_spec(i) <= fib_spec(j),
    decreases j,
{
    if i < j {
        if j == 1 {
        } else {
            lemma_fib_monotonic(i, (j - 1) as nat);
        }
    }
}

/// From index 6 on, each Fibonacci number exceeds its own index.
pub proof fn lemma_fib_exceeds_index(n: nat)
    requires
        n >= 6,
    ensures
        fib_spec(n) > n,
    decreases n,
{
    reveal_with_fuel(fib_spec, 8);
    if n >= 8 {
        lemma_fib_exceeds_index((n - 1) as nat);
        lemma_fib_exceeds_index((n - 2) as nat);
    }
}

/// The Fibonacci numbers of index 23 and 24.
proof fn lemma_fib_24()
    ensures
        fib_spec(23) == 28657,
        fib_spec(24) == 46368,
{
    assert(fib_spec(0) == 0);
    assert(fib_spec(1) == 1);
    assert(fib_spec(2) == 1);
    assert(fib_spec(3) == 2);
    assert(fib_spec(4) == 3);
    assert(fib_spec(5) == 5);
    assert(fib_spec(6) == 8);
    assert(fib_spec(7) == 13);
    assert(fib_spec(8) == 21);
    assert(fib_spec(9) == 34);
    assert(fib_spec(10) == 55);
    assert(fib_spec(11) == 89);
    assert(fib_spec(12) == 144);
    assert(fib_spec(13) == 233);
    assert(fib_spec(14) == 377);
    assert(fib_spec(15) == 610);
    assert(fib_spec(16) == 987);
    assert(fib_spec(17) == 1597);
    assert(fib_spec(18) == 2584);
    assert(fib_spec(19) == 4181);
    assert(fib_spec(20) == 6765);
    assert(fib_spec(21) == 10946);
    assert(fib_spec(22) == 17711);
    assert(fib_spec(23) == 28657);
    assert(fib_spec(24) == 46368);
}

/// The Fibonacci numbers of index 47 and 48.
pub proof fn lemma_fib_48()
    ensures
        fib_spec(47) == 2971215073,
        fib_spec(48) == 4807526976,
{
    lemma_fib_24();
    assert(fib_spec(25) == 75025);
    assert(fib_spec(26) == 121393);
    assert(fib_spec(27) == 196418);
    assert(fib_spec(28) == 317811);
    assert(fib_spec(29) == 514229);
    assert(fib_spec(30) == 832040);
    assert(fib_spec(31) == 1346269);
    assert(fib_spec(32) == 2178309);
    assert(fib_spec(33) == 3524578);
    assert(fib_spec(34) == 5702887);
    assert(fib_spec(35) == 9227465);
    assert(fib_spec(36) == 14930352);
    assert(fib_spec(37) == 24157817);
    assert(fib_spec(38) == 39088169);
    assert(fib_spec(39) == 63245986);
    assert(fib_spec(40) == 102334155);
    assert(fib_spec(41) == 165580141);
    assert(fib_spec(42) == 267914296);
    assert(fib_spec(43) == 433494437);
    assert(fib_spec(44) == 701408733);
    assert(fib_spec(45) == 1134903170);
    assert(fib_spec(46) == 1836311903);
    assert(fib_spec(47) == 2971215073);
    assert(fib_spec(48) == 4807526976);
}

/// The Fibonacci numbers of index 71 and 72.
proof fn lemma_fib_72()
    ensures
        fib_spec(71) == 308061521170129,
        fib_spec(72) == 498454011879264,
{
    lemma_fib_48();
    assert(fib_spec(49) == 7778742049);
    assert(fib_spec(50) == 12586269025);
    assert(fib_spec(51) == 20365011074);
    assert(fib_spec(52) == 32951280099);
    assert(fib_spec(53) == 53316291173);
    assert(fib_spec(54) == 86267571272);
    assert(fib_spec(55) == 139583862445);
    assert(fib_spec(56) == 225851433717);
    assert(fib_spec(57) == 365435296162);
    assert(fib_spec(58) == 591286729879);
    assert(fib_spec(59) == 956722026041);
    assert(fib_spec(60) == 1548008755920);
    assert(fib_spec(61) == 2504730781961);
    assert(fib_spec(62) == 4052739537881);
    assert(fib_spec(63) == 6557470319842);
    assert(fib_spec(64) == 10610209857723);
    assert(fib_spec(65) == 17167680177565);
    assert(fib_spec(66) == 27777890035288);
    assert(fib_spec(67) == 44945570212853);
    assert(fib_spec(68) == 72723460248141);
    assert(fib_spec(69) == 117669030460994);
    assert(fib_spec(70) == 190392490709135);
    assert(fib_spec(71) == 308061521170129);
    assert(fib_spec(72) == 498454011879264);
}

/// The Fibonacci numbers of index 93 and 94.
proof fn lemma_fib_94()
    ensures
        fib_spec(93) == 12200160415121876738,
        fib_spec(94) == 19740274219868223167,
{
    lemma_fib_72();
    assert(fib_spec(73) == 806515533049393);
    assert(fib_spec(74) == 1304969544928657);
    assert(fib_spec(75) == 2111485077978050);
    assert(fib_spec(76) == 3416454622906707);
    assert(fib_spec(77) == 5527939700884757);
    assert(fib_spec(78) == 8944394323791464);
    assert(fib_spec(79) == 14472334024676221);
    assert(fib_spec(80) == 23416728348467685);
    assert(fib_spec(81) == 37889062373143906);
    assert(fib_spec(82) == 61305790721611591);
    assert(fib_spec(83) == 99194853094755497);
    assert(fib_spec(84) == 160500643816367088);
    assert(fib_spec(85) == 259695496911122585);
    assert(fib_spec(86) == 420196140727489673);
    assert(fib_spec(87) == 679891637638612258);
    assert(fib_spec(88) == 1100087778366101931);
    assert(fib_spec(89) == 1779979416004714189);
    assert(fib_spec(90) == 2880067194370816120);
    assert(fib_spec(91) == 4660046610375530309);
    assert(fib_spec(92) == 7540113804746346429);
    assert(fib_spec(93) == 12200160415121876738);
    assert(fib_spec(94) == 19740274219868223167);
}

/// The Fibonacci numbers that fit in a `u64` are those of index 0 through
/// 93: the walk yields 94 numbers, the last of them 12200160415121876738.
pub proof fn lemma_fib_fits_through_93(n: nat)
    ensures
        fib_fits(n) <==> n <= 93,
        fib_spec(93) == 12200160415121876738,
{
    lemma_fib_94();
    if n <= 93 {
        lemma_fib_monotonic(n, 93);
    } else {
        lemma_fib_monotonic(94, n);
    }
}

/// A walk that began at index `from` and was to skip `n` items ran out at
/// index `at`: the first index from `from` on whose number does not fit.
pub open spec fn exhausted_between(from: nat, at: nat, n: nat) -> bool {
    &&& from <= at <= from + n
    &&& !fib_fits(at)
    &&& at == from || fib_fits((at - 1) as nat)
}

/// A restartable walk through the Fibonacci numbers that fit in a `u64`.
pub struct FibonacciSequence {
    previous: (u64, u64),
    n: u8,
    position: Ghost<nat>,
}

impl FibonacciSequence {
    /// The index of the Fibonacci number that `next` yields next.
    pub closed spec fn index(&self) -> nat {
        self.position@
    }

    /// The walk's invariant: the stored pair holds the two numbers before
    /// the current index once the walk is past its first three items.
    pub closed spec fn wf(&self) -> bool {
        &&& self.n <= 3
        &&& self.n < 3 ==> self.position@ == self.n && self.previous == (1u64, 1u64)
        &&& self.n == 3 ==> {
            &&& self.position@ >= 3
            &&& self.previous.0 == fib_spec((self.position@ - 2) as nat)
            &&& self.previous.1 == fib_spec((self.position@ - 1) as nat)
        }
    }

    /// A walk that stands before the first Fibonacci number.
    pub fn new() -> (s: FibonacciSequence)
        ensures
            s.wf(),
            s.index() == 0,
    {
        FibonacciSequence { previous: (1, 1), n: 0, position: Ghost(0) }
    }

    /// Yields the Fibonacci number at the current index and moves on, or
    /// yields `None` and stays where it is once that number no longer fits.
    pub fn next(&mut self) -> (r: Option<u64>)
        requires
            old(self).wf(),
        ensures
            final(self).wf(),
            fib_fits(old(self).index()) ==> r == Some(fib_spec(old(self).index()) as u64)
                && final(self).index() == old(self).index() + 1,
            !fib_fits(old(self).index()) ==> r.is_none(),
            !fib_fits(old(self).index()) ==> final(self).index() == old(self).index(),
    {
        proof {
            reveal_with_fuel(fib_spec, 4);
        }
        if self.n == 0 {
            self.n = 1;
            self.position = Ghost(1);
            Some(0)
        } else if self.n < 3 {
            self.n = self.n + 1;
            self.position = Ghost(self.n as nat);
            Some(1)
        } else {
            match self.previous.0.checked_add(self.previous.1) {
                Some(v) => {
                    self.previous = (self.previous.1, v);
                    self.position = Ghost(self.position@ + 1);
                    Some(v)
                },
                None => None,
            }
        }
    }

    /// Skips `n` items and yields the one after them; `None` as soon as the
    /// walk runs out.
    pub fn nth(&mut self, n: usize) -> (r: Option<u64>)
        requires
            old(self).wf(),
        ensures
            final(self).wf(),
            fib_fits(old(self).index() + n as nat) ==> r == Some(
                fib_spec(old(self).index() + n as nat) as u64,
            ) && final(self).index() == old(self).index() + n + 1,
            !fib_fits(old(self).index() + n as nat) ==> r.is_none(),
            !fib_fits(old(self).index() + n as nat) ==> exhausted_between(
                old(self).index(),
                final(self).index(),
                n as nat,
            ),
    {
        let ghost start = self.index();
        let mut i: usize = 0;
        while i < n
            invariant
                self.wf(),
                i <= n,
                start == old(self).index(),
                self.index() == start + i,
            decreases n - i,
        {
            match self.next() {
                Some(_) => {},
                None => {
                    proof {
                        lemma_fib_monotonic(start + i as nat, start + n as nat);
                    }
                    return None;
                },
            }
            i = i + 1;
        }
        self.next()
    }
}

/// The Fibonacci number of index `n`, or `None` where it exceeds a `u64`,
/// which is so from index 94 on.
pub fn fib(n: u64) -> (r: Option<u64>)
    ensures
        fib_fits(n as nat) ==> r == Some(fib_spec(n as nat) as u64),
        !fib_fits(n as nat) ==> r.is_none(),
        r.is_some() <==> n <= 93,
{
    proof {
        lemma_fib_fits_through_93(n as nat);
    }
    let mut fib_it = FibonacciSequence::new();
    let mut i: u64 = 0;
    while i < n
        invariant
            fib_it.wf(),
            i <= n,
            fib_it.index() == i,
        decreases n - i,
    {
        match fib_it.next() {
            Some(_) => {},
            None => {
                proof {
                    lemma_fib_monotonic(i as nat, n as nat);
                    lemma_fib_fits_through_93(n as nat);
                }
                return None;
            },
        }
        i = i + 1;
    }
    fib_it.next()
}

/// `k` is the least index whose Fibonacci number is at least `n`.
pub open spec fn is_first_at_least(n: nat, k: nat) -> bool {
    &&& fib_spec(k) >= n
    &&& forall|j: nat| j < k ==> fib_spec(j) < n
}

/// `k` is the least index whose Fibonacci number is exactly `n`.
pub open spec fn is_first_equal(n: nat, k: nat) -> bool {
    &&& fib_spec(k) == n
    &&& forall|j: nat| j < k ==> fib_spec(j) != n
}

/// The least index whose Fibonacci number is at least `n`; `None` where no
/// Fibonacci number that fits in a `u64` reaches `n`.
pub fn fib_inverse_rounded_up(n: u64) -> (r: Option<u64>)
    ensures
        match r {
            Some(k) => is_first_at_least(n as nat, k as nat) && fib_fits(k as nat),
            None => forall|j: nat| fib_fits(j) ==> fib_spec(j) < n,
        },
        r.is_some() <==> n <= 12200160415121876738,
{
    let mut fib_it = FibonacciSequence::new();
    let mut count: u64 = 0;
    loop
        invariant
            fib_it.wf(),
            fib_it.index() == count,
            forall|j: nat| j < count ==> fib_spec(j) < n,
            count <= 6 || fib_spec((count - 1) as nat) >= count,
        decreases u64::MAX - count,
    {
        match fib_it.next() {
            Some(value) => {
                if value >= n {
                    proof {
                        lemma_fib_fits_through_93(count as nat);
                        lemma_fib_monotonic(count as nat, 93);
                    }
                    return Some(count);
                }
                proof {
                    if count >= 6 {
                        lemma_fib_exceeds_index(count as nat);
                    }
                }
                count = count + 1;
            },
            None => {
                assert forall|j: nat| fib_fits(j) implies fib_spec(j) < n by {
                    if j >= count {
                        lemma_fib_monotonic(count as nat, j);
                    }
                }
                proof {
                    lemma_fib_fits_through_93(93);
                }
                return None;
            },
        }
    }
}

/// The least index whose Fibonacci number is `n`; `None` where `n` is no
/// Fibonacci number.
pub fn fib_inverse(n: u64) -> (r: Option<u64>)
    ensures
        match r {
            Some(k) => is_first_equal(n as nat, k as nat),
            None => forall|j: nat| fib_spec(j) != n,
        },
{
    let mut fib_it = FibonacciSequence::new();
    let mut count: u64 = 0;
    loop
        invariant
            fib_it.wf(),
            fib_it.index() == count,
            forall|j: nat| j < count ==> fib_spec(j) != n,
            count <= 6 || fib_spec((count - 1) as nat) >= count,
        decreases u64::MAX - count,
    {
        match fib_it.next() {
            Some(value) => {
                if value == n {
                    return Some(count);
                }
                proof {
                    if count >= 6 {
                        lemma_fib_exceeds_index(count as nat);
                    }
                }
                count = count + 1;
            },
            None => {
                assert forall|j: nat| fib_spec(j) != n by {
                    if j >= count {
                        lemma_fib_monotonic(count as nat, j);
                    }
                }
                return None;
            },
        }
    }
}

/// The least multiple of three above `x`.
pub fn next_factor_of_three(x: i32) -> (factor: i32)
    requires
        x < 2147483646,
    ensures
        factor > x,
        factor % 3 == 0,
        factor <= x + 3,
{
    let mut factor: i32 = x + 1;
    while factor % 3 != 0
        invariant
            x < factor <= x + 3,
            factor <= 2147483646,
            (factor - 1) / 3 == x as int / 3,
        decreases x + 3 - factor,
    {
        assert(factor < x + 3) by {
            assert(factor as int % 3 != 0);
            if factor == x + 3 {
                assert((x + 2) / 3 == x as int / 3);
                assert(x as int % 3 == 0);
            }
        }
        factor += 1;
    }
    factor
}

/// `r` can come of applying `f` to `v` `n` times over.
pub open spec fn reached<F: Fn(i32) -> i32>(f: F, n: nat, v: i32, r: i32) -> bool
    decreases n,
{
    if n == 0 {
        r == v
    } else {
        exists|m: i32| reached(f, (n - 1) as nat, v, m) && call_ensures(f, (m,), r)
    }
}

/// `f` accepts whatever comes of applying it to `v` fewer than `n` times.
pub open spec fn can_repeat<F: Fn(i32) -> i32>(f: F, n: nat, v: i32) -> bool {
    forall|k: nat, m: i32| k < n && reached(f, k, v, m) ==> call_requires(f, (m,))
}

/// What comes of applying `step` to `v` `n` times over.
pub open spec fn iterate(step: spec_fn(i32) -> i32, n: nat, v: i32) -> i32
    decreases n,
{
    if n == 0 {
        v
    } else {
        step(iterate(step, (n - 1) as nat, v))
    }
}

/// Where `f` computes `step`, all that can come of applying `f` `n` times
/// over is `step` applied `n` times over.
pub proof fn lemma_reached_is_iterate<F: Fn(i32) -> i32>(
    f: F,
    step: spec_fn(i32) -> i32,
    n: nat,
    v: i32,
    r: i32,
)
    requires
        forall|x: i32, y: i32| call_ensures(f, (x,), y) ==> y == step(x),
        reached(f, n, v, r),
    ensures
        r == iterate(step, n, v),
    decreases n,
{
    if n > 0 {
        let m = choose|m: i32| reached(f, (n - 1) as nat, v, m) && call_ensures(f, (m,), r);
        lemma_reached_is_iterate(f, step, (n - 1) as nat, v, m);
    }
}

/// Applies `f` to `v` `n` times over.
pub fn do_n_times<F: Fn(i32) -> i32>(f: F, n: u32, v: i32) -> (r: i32)
    requires
        can_repeat(f, n as nat, v),
    ensures
        reached(f, n as nat, v, r),
        n == 0 ==> r == v,
{
    let mut a: i32 = v;
    let mut i: u32 = 0;
    while i < n
        invariant
            i <= n,
            reached(f, i as nat, v, a),
            can_repeat(f, n as nat, v),
        decreases n - i,
    {
        let next: i32 = f(a);
        assert(reached(f, (i + 1) as nat, v, next)) by {
            assert(reached(f, ((i + 1) as nat - 1) as nat, v, a));
        }
        a = next;
        i = i + 1;
    }
    a
}

/// The function that applies `f` `n` times over.
pub fn to_do_n_times<F: Fn(i32) -> i32 + Copy>(f: F, n: u32) -> (g: impl Fn(i32) -> i32)
    ensures
        forall|x: i32| can_repeat(f, n as nat, x) ==> call_requires(g, (x,)),
        forall|x: i32, y: i32| call_ensures(g, (x,), y) ==> reached(f, n as nat, x, y),
{
    move |x: i32| -> (y: i32)
        requires
            can_repeat(f, n as nat, x),
        ensures
            reached(f, n as nat, x, y),
        { do_n_times(f, n, x) }
}

} // verus!
