use vstd::prelude::*;

verus! {

/// Number of leading bits that `a` and `b` have in common (32 when they are equal).
pub open spec fn common_prefix(a: u32, b: u32) -> int {
    (a ^ b).leading_zeros() as int
}

/// The common-prefix length is symmetric and at most 32; it is 32 exactly for equal keys.
pub proof fn lemma_common_prefix_basics(a: u32, b: u32)
    ensures
        common_prefix(a, b) == common_prefix(b, a),
        0 <= common_prefix(a, b) <= 32,
        common_prefix(a, b) == 32 <==> a == b,
{
    assert(a ^ b == b ^ a) by (bit_vector);
    assert((a ^ b == 0u32) <==> a == b) by (bit_vector);
    vstd::std_specs::bits::axiom_u32_leading_zeros(a ^ b);
}

/// For keys in ascending order `a <= b <= c`, the prefix shared by the outer
/// pair is the shorter of the two prefixes shared by neighbouring pairs.
pub proof fn lemma_common_prefix_triangle(a: u32, b: u32, c: u32)
    requires
        a <= b <= c,
    ensures
        common_prefix(a, c) == if common_prefix(a, b) <= common_prefix(b, c) {
            common_prefix(a, b)
        } else {
            common_prefix(b, c)
        },
{
    let i1 = a ^ b;
    let i2 = b ^ c;
    let i3 = a ^ c;
    vstd::std_specs::bits::axiom_u32_leading_zeros(i1);
    vstd::std_specs::bits::axiom_u32_leading_zeros(i2);
    vstd::std_specs::bits::axiom_u32_leading_zeros(i3);
    let l1 = i1.leading_zeros();
    let l2 = i2.leading_zeros();
    let l3 = i3.leading_zeros();
    assert(l3 == if l1 <= l2 { l1 } else { l2 }) by (bit_vector)
        requires
            a <= b,
            b <= c,
            i1 == a ^ b,
            i2 == b ^ c,
            i3 == a ^ c,
            l1 <= 32,
            l2 <= 32,
            l3 <= 32,
            l1 < 32 ==> (i1 >> ((31 - l1) as u32)) & 1u32 != 0u32,
            l2 < 32 ==> (i2 >> ((31 - l2) as u32)) & 1u32 != 0u32,
            l3 < 32 ==> (i3 >> ((31 - l3) as u32)) & 1u32 != 0u32,
            i1 >> ((32 - l1) as u32) == 0u32,
            i2 >> ((32 - l2) as u32) == 0u32,
            i3 >> ((32 - l3) as u32) == 0u32,
    ;
}

/// For ascending keys `a < b <= c` whose outer prefix is as long as the prefix of
/// `a` and `b`, the first bit after that prefix is clear in `a` and set in both
/// `b` and `c`, so `b` and `c` share a strictly longer prefix.
pub proof fn lemma_common_prefix_step(a: u32, b: u32, c: u32)
    requires
        a < b <= c,
        common_prefix(a, c) == common_prefix(a, b),
    ensures
        common_prefix(b, c) > common_prefix(a, b),
{
    let i1 = a ^ b;
    let i2 = b ^ c;
    let i3 = a ^ c;
    vstd::std_specs::bits::axiom_u32_leading_zeros(i1);
    vstd::std_specs::bits::axiom_u32_leading_zeros(i2);
    vstd::std_specs::bits::axiom_u32_leading_zeros(i3);
    let l1 = i1.leading_zeros();
    let l2 = i2.leading_zeros();
    let l3 = i3.leading_zeros();
    assert(l2 > l1) by (bit_vector)
        requires
            a < b,
            b <= c,
            i1 == a ^ b,
            i2 == b ^ c,
            i3 == a ^ c,
            l1 <= 32,
            l2 <= 32,
            l3 <= 32,
            l1 == l3,
            l1 < 32 ==> (i1 >> ((31 - l1) as u32)) & 1u32 != 0u32,
            l2 < 32 ==> (i2 >> ((31 - l2) as u32)) & 1u32 != 0u32,
            l3 < 32 ==> (i3 >> ((31 - l3) as u32)) & 1u32 != 0u32,
            i1 >> ((32 - l1) as u32) == 0u32,
            i2 >> ((32 - l2) as u32) == 0u32,
            i3 >> ((32 - l3) as u32) == 0u32,
    ;
}

} // verus!
