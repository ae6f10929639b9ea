use vstd::prelude::*;

verus! {

/// Greatest common divisor by Euclid's rule; `gcd(n, 0) == n`.
pub open spec fn gcd(a: nat, b: nat) -> nat
    decreases b,
{
    if b == 0 {
        a
    } else {
        gcd(b, a % b)
    }
}

/// `d` divides `n`.
pub open spec fn divides(d: nat, n: nat) -> bool {
    exists|k: nat| n == #[trigger] (k * d)
}

proof fn lemma_mod_scaled(a: nat, b: nat, k: nat)
    requires
        b > 0,
        k > 0,
    ensures
        (k * a) % (k * b) == k * (a % b),
{
    let q = a / b;
    let r = a % b;
    assert(a == q * b + r && r < b) by (nonlinear_arith)
        requires
            b > 0,
            q == a / b,
            r == a % b,
    ;
    assert(k * a == q * (k * b) + k * r && k * r < k * b) by (nonlinear_arith)
        requires
            a == q * b + r,
            r < b,
            k > 0,
    ;
    vstd::arithmetic::div_mod::lemma_fundamental_div_mod_converse(
        (k * a) as int,
        (k * b) as int,
        q as int,
        (k * r) as int,
    );
}

/// Scaling both arguments scales the gcd.
pub proof fn lemma_gcd_scaled(a: nat, b: nat, k: nat)
    requires
        k > 0,
    ensures
        gcd(k * a, k * b) == k * gcd(a, b),
    decreases b,
{
    if b == 0 {
        assert(k * b == 0) by (nonlinear_arith)
            requires
                b == 0,
        ;
    } else {
        assert(k * b > 0) by (nonlinear_arith)
            requires
                k > 0,
                b > 0,
        ;
        lemma_mod_scaled(a, b, k);
        lemma_gcd_scaled(b, a % b, k);
    }
}

/// The gcd divides both arguments.
pub proof fn lemma_gcd_divides(a: nat, b: nat)
    ensures
        divides(gcd(a, b), a),
        divides(gcd(a, b), b),
    decreases b,
{
    if b == 0 {
        assert(a == 1 * a);
        assert(b == 0 * a);
    } else {
        lemma_gcd_divides(b, a % b);
        let g = gcd(b, a % b);
        let kb = choose|k: nat| b == #[trigger] (k * g);
        let kr = choose|k: nat| a % b == #[trigger] (k * g);
        let q = a / b;
        assert(a == q * b + a % b) by (nonlinear_arith)
            requires
                b > 0,
                q == a / b,
        ;
        assert(a == (q * kb + kr) * g) by (nonlinear_arith)
            requires
                a == q * b + a % b,
                b == kb * g,
                a % b == kr * g,
        ;
        assert(a == ((q * kb + kr) as nat) * g);
    }
}

/// The gcd is positive when the second argument is.
pub proof fn lemma_gcd_positive(a: nat, b: nat)
    requires
        b > 0,
    ensures
        gcd(a, b) > 0,
    decreases b,
{
    if a % b > 0 {
        lemma_gcd_positive(b, a % b);
    } else {
        assert(gcd(b, 0) == b);
    }
}

/// Dividing both arguments by their gcd leaves a coprime pair.
pub proof fn lemma_gcd_of_quotients(a: nat, b: nat)
    requires
        b > 0,
    ensures
        gcd(a / gcd(a, b), b / gcd(a, b)) == 1,
        a / gcd(a, b) * gcd(a, b) == a,
        b / gcd(a, b) * gcd(a, b) == b,
{
    let g = gcd(a, b);
    lemma_gcd_positive(a, b);
    lemma_gcd_divides(a, b);
    let ka = choose|k: nat| a == #[trigger] (k * g);
    let kb = choose|k: nat| b == #[trigger] (k * g);
    vstd::arithmetic::div_mod::lemma_div_multiples_vanish(ka as int, g as int);
    vstd::arithmetic::div_mod::lemma_div_multiples_vanish(kb as int, g as int);
    assert(g * ka == ka * g && g * kb == kb * g) by (nonlinear_arith);
    assert(a / g == ka && b / g == kb);
    lemma_gcd_scaled(ka, kb, g);
    assert(g * gcd(ka, kb) == g * 1) by (nonlinear_arith)
        requires
            g * gcd(ka, kb) == g,
    ;
    assert(gcd(ka, kb) == 1) by (nonlinear_arith)
        requires
            g * gcd(ka, kb) == g * 1,
            g > 0,
    ;
}

} // verus!
