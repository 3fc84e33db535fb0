//! Paths into a binary tree of cons cells, as used by CLVM environments.
//!
//! A path is a positive integer read from its least significant bit: after
//! the leading 1, each bit picks the first (0) or the rest (1) of a pair.
use vstd::prelude::*;
use vstd::arithmetic::power2::{pow2, lemma2_to64, lemma_pow2_pos, lemma_pow2_unfold, lemma_pow2_strictly_increases};
use vstd::arithmetic::div_mod::{lemma_fundamental_div_mod, lemma_fundamental_div_mod_converse, lemma_mod_breakdown, lemma_mod_multiples_vanish};

verus! {

/// The value of big-endian bytes.
pub open spec fn be_value(bytes: Seq<u8>) -> nat
    decreases bytes.len(),
{
    if bytes.len() == 0 {
        0
    } else {
        be_value(bytes.drop_last()) * 256 + bytes.last() as nat
    }
}

/// The number of bits needed to write `n`: zero for zero.
pub open spec fn bit_length(n: nat) -> nat
    decreases n,
{
    if n == 0 {
        0
    } else {
        1 + bit_length(n / 2)
    }
}

/// Bitwise and of two naturals.
pub open spec fn nat_and(a: nat, b: nat) -> nat
    decreases a,
{
    if a == 0 || b == 0 {
        0
    } else {
        2 * nat_and(a / 2, b / 2) + (a % 2) * (b % 2)
    }
}

/// Bitwise or of two naturals.
pub open spec fn nat_or(a: nat, b: nat) -> nat
    decreases a,
{
    if a == 0 {
        b
    } else if b == 0 {
        a
    } else {
        2 * nat_or(a / 2, b / 2) + if a % 2 == 1 || b % 2 == 1 {
            1nat
        } else {
            0nat
        }
    }
}

// ---------------------------------------------------------------------------
// Calls into `num_bigint`. Values cross as big-endian bytes.

/// `BigUint::from(n).to_bytes_be()`: the bytes of `n`.
#[verifier::external_body]
fn big_from_u64(n: u64) -> (result: Vec<u8>)
    ensures
        be_value(result@) == n,
{
    num_bigint::BigUint::from(n).to_bytes_be()
}

/// `BigUint::bits`: the fewest bits that express the value.
#[verifier::external_body]
fn big_bits(a: &Vec<u8>) -> (result: u64)
    ensures
        result == bit_length(be_value(a@)),
{
    num_bigint::BigUint::from_bytes_be(a.as_slice()).bits()
}

/// `BigUint << u64`: the value times two to the power `shift`.
#[verifier::external_body]
fn big_shl(a: &Vec<u8>, shift: u64) -> (result: Vec<u8>)
    ensures
        be_value(result@) == be_value(a@) * pow2(shift as nat),
{
    (num_bigint::BigUint::from_bytes_be(a.as_slice()) << shift).to_bytes_be()
}

/// `BigUint - u8`, which panics below zero.
#[verifier::external_body]
fn big_sub_u8(a: &Vec<u8>, b: u8) -> (result: Vec<u8>)
    requires
        be_value(a@) >= b,
    ensures
        be_value(result@) == be_value(a@) - b,
{
    (num_bigint::BigUint::from_bytes_be(a.as_slice()) - b).to_bytes_be()
}

/// `&BigUint & &BigUint`: bitwise and.
#[verifier::external_body]
fn big_and(a: &Vec<u8>, b: &Vec<u8>) -> (result: Vec<u8>)
    ensures
        be_value(result@) == nat_and(be_value(a@), be_value(b@)),
{
    (&num_bigint::BigUint::from_bytes_be(a.as_slice()) & &num_bigint::BigUint::from_bytes_be(
        b.as_slice(),
    )).to_bytes_be()
}

/// `BigUint | BigUint`: bitwise or.
#[verifier::external_body]
fn big_or(a: &Vec<u8>, b: &Vec<u8>) -> (result: Vec<u8>)
    ensures
        be_value(result@) == nat_or(be_value(a@), be_value(b@)),
{
    (num_bigint::BigUint::from_bytes_be(a.as_slice()) | num_bigint::BigUint::from_bytes_be(
        b.as_slice(),
    )).to_bytes_be()
}

// ---------------------------------------------------------------------------
// Paths.

/// A path into a tree of pairs.
#[derive(Debug, Clone)]
pub struct TreePath {
    /// The path, as big-endian bytes.
    pub bytes: Vec<u8>,
}

impl View for TreePath {
    type V = nat;

    open spec fn view(&self) -> nat {
        be_value(self.bytes@)
    }
}

pub open spec fn sat_sub(a: nat, b: nat) -> nat {
    if a >= b {
        (a - b) as nat
    } else {
        0
    }
}

/// The depth of a path: the number of steps after its leading bit.
pub open spec fn depth(path: nat) -> nat {
    sat_sub(bit_length(path), 1)
}

/// `(b << depth) | (a & ((1 << depth) - 1))`, with the depth of `a`.
pub open spec fn add_path_spec(a: nat, b: nat) -> nat {
    nat_or(b * pow2(depth(a)), nat_and(a, (pow2(depth(a)) - 1) as nat))
}

pub open spec fn first_path_spec(path: nat) -> nat {
    add_path_spec(path, 2)
}

pub open spec fn rest_path_spec(path: nat) -> nat {
    add_path_spec(path, 3)
}

/// The path one step shorter, dropping the last step; none for the root and
/// for zero.
pub open spec fn parent_path_spec(path: nat) -> Option<nat> {
    let result_depth = depth(path);
    if result_depth == 0 {
        None
    } else {
        let original_depth = (result_depth - 1) as nat;
        Some(
            nat_or(
                pow2(original_depth),
                nat_and(path, (pow2(original_depth) - 1) as nat),
            ),
        )
    }
}

impl TreePath {
    /// The path with the value `n`.
    pub fn from_u64(n: u64) -> (result: TreePath)
        ensures
            result@ == n,
    {
        TreePath { bytes: big_from_u64(n) }
    }

    /// The path with the value of big-endian `bytes`.
    pub fn from_bytes_be(bytes: Vec<u8>) -> (result: TreePath)
        ensures
            result@ == be_value(bytes@),
    {
        TreePath { bytes }
    }

    /// The number of bits of the path.
    pub fn bits(&self) -> (result: u64)
        ensures
            result == bit_length(self@),
    {
        big_bits(&self.bytes)
    }
}

/// Leading zero bytes do not change a value.
proof fn lemma_be_value_skip_zeros(bytes: Seq<u8>, start: int)
    requires
        0 <= start <= bytes.len(),
        forall|j: int| 0 <= j < start ==> #[trigger] bytes[j] == 0,
    ensures
        be_value(bytes.skip(start)) == be_value(bytes),
    decreases bytes.len(),
{
    if bytes.len() > start {
        lemma_be_value_skip_zeros(bytes.drop_last(), start);
        assert(bytes.skip(start).drop_last() =~= bytes.drop_last().skip(start));
    } else {
        lemma_be_value_zeros(bytes);
        assert(bytes.skip(start) =~= Seq::<u8>::empty());
    }
}

proof fn lemma_be_value_zeros(bytes: Seq<u8>)
    requires
        forall|j: int| 0 <= j < bytes.len() ==> #[trigger] bytes[j] == 0,
    ensures
        be_value(bytes) == 0,
    decreases bytes.len(),
{
    if bytes.len() > 0 {
        lemma_be_value_zeros(bytes.drop_last());
    }
}

/// The minimal big-endian bytes of a path: no leading zero byte, and none at
/// all for zero.
pub fn path_to_atom(path: &TreePath) -> (result: Vec<u8>)
    ensures
        be_value(result@) == path@,
        result@.len() == 0 || result@[0] != 0,
{
    let bytes = &path.bytes;
    let mut first_nonzero: usize = 0;
    while first_nonzero < bytes.len() && bytes[first_nonzero] == 0
        invariant
            first_nonzero <= bytes@.len(),
            forall|j: int| 0 <= j < first_nonzero ==> #[trigger] bytes@[j] == 0,
        decreases bytes@.len() - first_nonzero,
    {
        first_nonzero += 1;
    }
    let mut result: Vec<u8> = Vec::new();
    let mut i = first_nonzero;
    while i < bytes.len()
        invariant
            first_nonzero <= i <= bytes@.len(),
            result@ == bytes@.subrange(first_nonzero as int, i as int),
        decreases bytes@.len() - i,
    {
        result.push(bytes[i]);
        i += 1;
        assert(result@ =~= bytes@.subrange(first_nonzero as int, i as int));
    }
    proof {
        assert(result@ =~= bytes@.skip(first_nonzero as int));
        lemma_be_value_skip_zeros(bytes@, first_nonzero as int);
    }
    result
}

fn add_path(a: &TreePath, b: u64) -> (result: TreePath)
    ensures
        result@ == add_path_spec(a@, b as nat),
{
    let depth = a.bits().saturating_sub(1);
    let one = big_from_u64(1);
    let unit = big_shl(&one, depth);
    proof {
        lemma_pow2_pos(depth as nat);
    }
    let mask = big_sub_u8(&unit, 1);
    let high = big_shl(&big_from_u64(b), depth);
    let low = big_and(&a.bytes, &mask);
    TreePath { bytes: big_or(&high, &low) }
}

/// The path to the first item of the pair at `path`.
pub fn first_path(path: &TreePath) -> (result: TreePath)
    ensures
        result@ == first_path_spec(path@),
{
    add_path(path, 2)
}

/// The path to the rest of the pair at `path`.
pub fn rest_path(path: &TreePath) -> (result: TreePath)
    ensures
        result@ == rest_path_spec(path@),
{
    add_path(path, 3)
}

/// The path to the pair that holds the value at `path`.
pub fn parent_path(path: &TreePath) -> (result: Option<TreePath>)
    ensures
        match (result, parent_path_spec(path@)) {
            (Some(p), Some(v)) => p@ == v,
            (None, None) => true,
            _ => false,
        },
{
    let result_depth = path.bits().saturating_sub(1);
    if result_depth == 0 {
        return None;
    }
    let original_depth = result_depth - 1;
    let unit = big_shl(&big_from_u64(1), original_depth);
    proof {
        lemma_pow2_pos(original_depth as nat);
    }
    let mask = big_sub_u8(&unit, 1);
    let lower_bits = big_and(&path.bytes, &mask);
    Some(TreePath { bytes: big_or(&unit, &lower_bits) })
}


// ---------------------------------------------------------------------------
// Arithmetic facts about paths.

/// A positive number lies between the powers of two around its bit length.
pub proof fn lemma_bit_length_bounds(n: nat)
    requires
        n >= 1,
    ensures
        bit_length(n) >= 1,
        pow2((bit_length(n) - 1) as nat) <= n < pow2(bit_length(n)),
    decreases n,
{
    if n == 1 {
        assert(bit_length(0) == 0);
        lemma2_to64();
        lemma_pow2_unfold(1);
    } else {
        let h = n / 2;
        lemma_bit_length_bounds(h);
        let k = bit_length(h);
        lemma_pow2_unfold(k);
        lemma_pow2_unfold(k + 1);
        assert(bit_length(n) == k + 1);
        assert(n == 2 * h + n % 2);
        assert(pow2((k - 1) as nat) <= h < pow2(k));
    }
}

/// A number between two consecutive powers of two has the larger exponent as
/// its bit length.
pub proof fn lemma_bit_length_of_range(n: nat, k: nat)
    requires
        pow2(k) <= n < pow2(k + 1),
    ensures
        bit_length(n) == k + 1,
    decreases k,
{
    lemma_pow2_unfold(k + 1);
    if k == 0 {
        lemma2_to64();
        assert(n == 1);
        assert(bit_length(0) == 0);
    } else {
        lemma_pow2_unfold(k);
        assert(n == 2 * (n / 2) + n % 2);
        lemma_bit_length_of_range(n / 2, (k - 1) as nat);
    }
}

/// Masking with `2^d - 1` keeps the remainder modulo `2^d`.
pub proof fn lemma_and_low_mask(x: nat, d: nat)
    ensures
        nat_and(x, (pow2(d) - 1) as nat) == x % pow2(d),
    decreases d,
{
    lemma_pow2_pos(d);
    if d == 0 {
        lemma2_to64();
    } else if x == 0 {
    } else {
        lemma_pow2_unfold(d);
        lemma_pow2_pos((d - 1) as nat);
        let z = pow2((d - 1) as nat);
        let m = (pow2(d) - 1) as nat;
        assert(m == 2 * (z - 1) + 1);
        assert(m / 2 == z - 1);
        assert(m % 2 == 1);
        lemma_and_low_mask(x / 2, (d - 1) as nat);
        lemma_mod_breakdown(x as int, 2, z as int);
    }
}

/// Or-ing a multiple of `2^d` with a number below `2^d` adds them.
pub proof fn lemma_or_disjoint(b: nat, y: nat, d: nat)
    requires
        y < pow2(d),
    ensures
        nat_or(b * pow2(d), y) == b * pow2(d) + y,
    decreases d,
{
    lemma_pow2_pos(d);
    if d == 0 {
        lemma2_to64();
        assert(y == 0);
    } else {
        lemma_pow2_unfold(d);
        let z = pow2((d - 1) as nat);
        let x = b * pow2(d);
        assert(x == 2 * (b * z)) by (nonlinear_arith)
            requires
                x == b * pow2(d),
                pow2(d) == 2 * z,
        ;
        if x == 0 || y == 0 {
        } else {
            assert(x / 2 == b * z);
            assert(x % 2 == 0);
            assert(y == 2 * (y / 2) + y % 2);
            lemma_or_disjoint(b, y / 2, (d - 1) as nat);
        }
    }
}

/// The value of a path extended by `b` at its depth.
pub proof fn lemma_add_path_value(a: nat, b: nat)
    ensures
        add_path_spec(a, b) == b * pow2(depth(a)) + a % pow2(depth(a)),
        a % pow2(depth(a)) < pow2(depth(a)),
{
    let d = depth(a);
    lemma_pow2_pos(d);
    lemma_and_low_mask(a, d);
    lemma_or_disjoint(b, a % pow2(d), d);
}

/// The value of the parent of a path.
pub proof fn lemma_parent_path_value(path: nat)
    ensures
        parent_path_spec(path) == if depth(path) == 0 {
            None::<nat>
        } else {
            Some(
                pow2((depth(path) - 1) as nat) + path % pow2((depth(path) - 1) as nat),
            )
        },
{
    if depth(path) > 0 {
        let d = (depth(path) - 1) as nat;
        lemma_pow2_pos(d);
        lemma_and_low_mask(path, d);
        lemma_or_disjoint(1, path % pow2(d), d);
    }
}

proof fn lemma_step_then_parent(path: nat, b: nat)
    requires
        path >= 1,
        b == 2 || b == 3,
    ensures
        parent_path_spec(add_path_spec(path, b)) == Some(path),
        bit_length(add_path_spec(path, b)) == bit_length(path) + 1,
{
    lemma_bit_length_bounds(path);
    let d = depth(path);
    assert(d == bit_length(path) - 1);
    lemma_add_path_value(path, b);
    let r = path % pow2(d);
    let child = add_path_spec(path, b);
    lemma_pow2_unfold(d + 1);
    lemma_pow2_unfold(d + 2);
    assert(child == b * pow2(d) + r);
    assert(pow2(d + 1) <= child < pow2(d + 2)) by (nonlinear_arith)
        requires
            child == b * pow2(d) + r,
            r < pow2(d),
            b == 2 || b == 3,
            pow2(d + 1) == 2 * pow2(d),
            pow2(d + 2) == 2 * pow2(d + 1),
    ;
    lemma_bit_length_of_range(child, d + 1);
    assert(depth(child) == d + 1);
    lemma_parent_path_value(child);
    lemma_pow2_pos(d);
    lemma_mod_multiples_vanish(b as int, r as int, pow2(d) as int);
    assert(pow2(d) * b == b * pow2(d)) by (nonlinear_arith);
    lemma_fundamental_div_mod_converse(r as int, pow2(d) as int, 0, r as int);
    lemma_fundamental_div_mod_converse(path as int, pow2(d) as int, 1, path - pow2(d));
}

/// Law: the parent of the path to the first item of a pair is the path to
/// the pair, and that path is one bit longer.
pub proof fn law_parent_of_first_path(path: nat)
    requires
        path >= 1,
    ensures
        parent_path_spec(first_path_spec(path)) == Some(path),
        bit_length(first_path_spec(path)) == bit_length(path) + 1,
{
    lemma_step_then_parent(path, 2);
}

/// Law: the parent of the path to the rest of a pair is the path to the
/// pair, and that path is one bit longer.
pub proof fn law_parent_of_rest_path(path: nat)
    requires
        path >= 1,
    ensures
        parent_path_spec(rest_path_spec(path)) == Some(path),
        bit_length(rest_path_spec(path)) == bit_length(path) + 1,
{
    lemma_step_then_parent(path, 3);
}

/// Law: the first and the rest of a pair are reached by different paths.
pub proof fn law_first_and_rest_paths_differ(path: nat)
    ensures
        first_path_spec(path) != rest_path_spec(path),
{
    lemma_add_path_value(path, 2);
    lemma_add_path_value(path, 3);
    lemma_pow2_pos(depth(path));
}

} // verus!
