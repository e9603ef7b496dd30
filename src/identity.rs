//! Content addressing of a parameter tuple: the bytes that identify it, their
//! digest, the acceptance prefix and the sharded output path.
use crate::ratio::RatioPair;
use sha3::Digest;
use vstd::prelude::*;

verus! {

/// How two normalized sample streams are combined.
#[derive(Clone, Copy, Debug, PartialEq, Eq, Structural)]
pub enum Mode {
    Multiply,
    Divide,
    ArctanSum,
    FreqMultiply,
    FreqDivideNormalized,
}

/// The full identity of one candidate, apart from the two source paths.
#[derive(Clone, Copy, Debug, PartialEq, Eq, Structural)]
pub struct Params {
    pub a: RatioPair,
    pub b: RatioPair,
    pub out: RatioPair,
    pub mode: Mode,
    pub invert_a: bool,
    pub invert_b: bool,
}

impl Params {
    /// The six ratio components in their fixed order.
    pub open spec fn components(self) -> Seq<usize> {
        seq![self.a.factor, self.a.stride, self.b.factor, self.b.stride, self.out.factor, self.out.stride]
    }
}

/// The `n` low bytes of `v`, least significant first.
pub open spec fn le_bytes(v: nat, n: nat) -> Seq<u8>
    decreases n,
{
    if n == 0 {
        Seq::empty()
    } else {
        seq![(v % 256) as u8] + le_bytes(v / 256, (n - 1) as nat)
    }
}

/// The record of component `k` with value `v`: both as eight little-endian
/// bytes, or nothing when `v` is neutral.
pub open spec fn record(k: nat, v: usize) -> Seq<u8> {
    if v != 1 {
        le_bytes(k, 8) + le_bytes(v as nat, 8)
    } else {
        Seq::empty()
    }
}

/// The records of the components of `c` from position `k` on.
pub open spec fn records_from(c: Seq<usize>, k: nat) -> Seq<u8>
    decreases c.len() - k,
{
    if k >= c.len() {
        Seq::empty()
    } else {
        record(k, c[k as int]) + records_from(c, k + 1)
    }
}

/// "atan", "div", "freqmult" and "freqdivnorm" in ASCII; nothing for Multiply.
pub open spec fn mode_tag(m: Mode) -> Seq<u8> {
    match m {
        Mode::Multiply => Seq::empty(),
        Mode::Divide => seq![100u8, 105, 118],
        Mode::ArctanSum => seq![97u8, 116, 97, 110],
        Mode::FreqMultiply => seq![102u8, 114, 101, 113, 109, 117, 108, 116],
        Mode::FreqDivideNormalized => seq![102u8, 114, 101, 113, 100, 105, 118, 110, 111, 114, 109],
    }
}

/// "aom" and "bom" in ASCII, for each polarity inversion that is on.
pub open spec fn polarity_tags(invert_a: bool, invert_b: bool) -> Seq<u8> {
    (if invert_a { seq![97u8, 111, 109] } else { Seq::empty() }) + (if invert_b {
        seq![98u8, 111, 109]
    } else {
        Seq::empty()
    })
}

/// Everything after the ratio records: the mode tag and the polarity tags.
pub open spec fn tags(p: Params) -> Seq<u8> {
    mode_tag(p.mode) + polarity_tags(p.invert_a, p.invert_b)
}

/// The bytes that identify a candidate: both source paths, the records of the
/// non-neutral ratio components, and the tags.
pub open spec fn identity_input(path_a: Seq<u8>, path_b: Seq<u8>, p: Params) -> Seq<u8> {
    path_a + path_b + records_from(p.components(), 0) + tags(p)
}

/// The digest that SHA3-256 gives of `data`.
pub uninterp spec fn sha3_256_of(data: Seq<u8>) -> Seq<u8>;

/// The lowercase ASCII hex digit of a value below 16.
pub open spec fn hex_digit(n: u8) -> u8 {
    if n < 10 {
        (48 + n) as u8
    } else {
        (87 + n) as u8
    }
}

/// Two lowercase hex digits per byte, the high nibble first.
pub open spec fn hex_of(b: Seq<u8>) -> Seq<u8> {
    Seq::new(
        2 * b.len(),
        |i: int|
            hex_digit(
                if i % 2 == 0 {
                    b[i / 2] / 16
                } else {
                    b[i / 2] % 16
                },
            ),
    )
}

/// The identity hash of a candidate, as lowercase hex.
pub open spec fn spec_identity_hash(path_a: Seq<u8>, path_b: Seq<u8>, p: Params) -> Seq<u8> {
    hex_of(sha3_256_of(identity_input(path_a, path_b, p)))
}

/// Relies on sha3's `Sha3_256`: the SHA3-256 digest of the data, 32 bytes.
#[verifier::external_body]
fn sha3_256(data: &Vec<u8>) -> (r: Vec<u8>)
    ensures
        r@ == sha3_256_of(data@),
        r@.len() == 32,
{
    sha3::Sha3_256::digest(data.as_slice()).to_vec()
}

/// Relies on `hex::encode`: two lowercase hex digits per byte, high nibble
/// first.
#[verifier::external_body]
fn hex_encode(b: &Vec<u8>) -> (r: Vec<u8>)
    ensures
        r@ == hex_of(b@),
{
    hex::encode(b.as_slice()).into_bytes()
}

fn append(out: &mut Vec<u8>, src: &Vec<u8>)
    ensures
        final(out)@ == old(out)@ + src@,
{
    let mut i: usize = 0;
    while i < src.len()
        invariant
            i <= src@.len(),
            out@ == old(out)@ + src@.take(i as int),
        decreases src@.len() - i,
    {
        out.push(src[i]);
        i = i + 1;
        assert(out@ =~= old(out)@ + src@.take(i as int));
    }
    assert(src@.take(i as int) =~= src@);
}

fn append_le8(out: &mut Vec<u8>, v: u64)
    ensures
        final(out)@ == old(out)@ + le_bytes(v as nat, 8),
{
    let mut x: u64 = v;
    let mut i: usize = 0;
    while i < 8
        invariant
            i <= 8,
            out@ + le_bytes(x as nat, (8 - i) as nat) == old(out)@ + le_bytes(v as nat, 8),
        decreases 8 - i,
    {
        let ghost before = out@;
        out.push((x % 256) as u8);
        assert(le_bytes(x as nat, (8 - i) as nat) == seq![(x % 256) as u8] + le_bytes(
            (x / 256) as nat,
            (8 - i - 1) as nat,
        ));
        assert(out@ + le_bytes((x / 256) as nat, (8 - i - 1) as nat) =~= before + le_bytes(
            x as nat,
            (8 - i) as nat,
        ));
        x = x / 256;
        i = i + 1;
    }
    assert(le_bytes(x as nat, 0) =~= Seq::<u8>::empty());
    assert(out@ =~= out@ + le_bytes(x as nat, 0));
}

fn mode_tag_bytes(m: Mode) -> (r: Vec<u8>)
    ensures
        r@ == mode_tag(m),
{
    let r = match m {
        Mode::Multiply => Vec::new(),
        Mode::Divide => vec![100u8, 105, 118],
        Mode::ArctanSum => vec![97u8, 116, 97, 110],
        Mode::FreqMultiply => vec![102u8, 114, 101, 113, 109, 117, 108, 116],
        Mode::FreqDivideNormalized => vec![102u8, 114, 101, 113, 100, 105, 118, 110, 111, 114, 109],
    };
    assert(r@ =~= mode_tag(m));
    r
}

/// The bytes that identify a candidate, which the identity hash digests.
pub fn identity_bytes(path_a: &Vec<u8>, path_b: &Vec<u8>, p: &Params) -> (r: Vec<u8>)
    ensures
        r@ == identity_input(path_a@, path_b@, *p),
{
    let mut r: Vec<u8> = Vec::new();
    append(&mut r, path_a);
    append(&mut r, path_b);
    let comps = vec![p.a.factor, p.a.stride, p.b.factor, p.b.stride, p.out.factor, p.out.stride];
    let ghost c = p.components();
    assert(comps@ =~= c);
    let ghost pre = r@;
    let mut k: usize = 0;
    while k < 6
        invariant
            comps@ == c,
            c == p.components(),
            k <= 6,
            r@ + records_from(c, k as nat) == pre + records_from(c, 0),
        decreases 6 - k,
    {
        let ghost before = r@;
        let v = comps[k];
        if v != 1 {
            append_le8(&mut r, k as u64);
            append_le8(&mut r, v as u64);
        }
        assert(records_from(c, k as nat) == record(k as nat, v) + records_from(c, (k + 1) as nat));
        assert(r@ + records_from(c, (k + 1) as nat) =~= before + records_from(c, k as nat));
        k = k + 1;
    }
    assert(records_from(c, 6) =~= Seq::<u8>::empty());
    assert(r@ =~= r@ + records_from(c, 6));
    let mt = mode_tag_bytes(p.mode);
    append(&mut r, &mt);
    if p.invert_a {
        append(&mut r, &vec![97u8, 111, 109]);
    }
    if p.invert_b {
        append(&mut r, &vec![98u8, 111, 109]);
    }
    assert(r@ =~= identity_input(path_a@, path_b@, *p));
    r
}

/// The identity hash of a candidate: the SHA3-256 digest of its identity
/// bytes, as 64 lowercase hex digits.
pub fn identity_hash(path_a: &Vec<u8>, path_b: &Vec<u8>, p: &Params) -> (r: Vec<u8>)
    ensures
        r@ == spec_identity_hash(path_a@, path_b@, *p),
        r@.len() == 64,
{
    let input = identity_bytes(path_a, path_b, p);
    let digest = sha3_256(&input);
    hex_encode(&digest)
}

/// `pre` is a prefix of `s`.
pub open spec fn has_prefix(s: Seq<u8>, pre: Seq<u8>) -> bool {
    pre.len() <= s.len() && s.take(pre.len() as int) == pre
}

/// Whether a hash begins with the required prefix; the empty prefix accepts
/// every hash.
pub fn accepts(hash: &Vec<u8>, prefix: &Vec<u8>) -> (r: bool)
    ensures
        r == has_prefix(hash@, prefix@),
{
    if prefix.len() > hash.len() {
        return false;
    }
    let mut i: usize = 0;
    while i < prefix.len()
        invariant
            prefix@.len() <= hash@.len(),
            i <= prefix@.len(),
            hash@.take(i as int) == prefix@.take(i as int),
        decreases prefix@.len() - i,
    {
        if hash[i] != prefix[i] {
            assert(hash@.take(prefix@.len() as int)[i as int] != prefix@[i as int]);
            return false;
        }
        i = i + 1;
        assert(hash@.take(i as int) =~= prefix@.take(i as int));
    }
    assert(prefix@.take(i as int) =~= prefix@);
    true
}

/// Number of leading hash digits that name the shard directory.
pub const SHARD_DIGITS: usize = 4;

/// `root/shard`, where the shard is the first digits of the hash.
pub open spec fn spec_shard_dir(root: Seq<u8>, hash: Seq<u8>) -> Seq<u8> {
    root + seq![47u8] + hash.take(SHARD_DIGITS as int)
}

/// `root/shard/hash.wav`.
pub open spec fn spec_output_file(root: Seq<u8>, hash: Seq<u8>) -> Seq<u8> {
    spec_shard_dir(root, hash) + seq![47u8] + hash + seq![46u8, 119, 97, 118]
}

/// Where the candidate with an accepted hash is written.
pub struct OutputPlan {
    pub hash: Vec<u8>,
    pub shard_dir: Vec<u8>,
    pub file: Vec<u8>,
}

/// The shard directory of a hash under the output root.
pub fn shard_dir(root: &Vec<u8>, hash: &Vec<u8>) -> (r: Vec<u8>)
    requires
        hash@.len() >= SHARD_DIGITS,
    ensures
        r@ == spec_shard_dir(root@, hash@),
{
    let mut r: Vec<u8> = Vec::new();
    append(&mut r, root);
    r.push(47u8);
    let mut i: usize = 0;
    let ghost pre = r@;
    while i < SHARD_DIGITS
        invariant
            hash@.len() >= SHARD_DIGITS,
            i <= SHARD_DIGITS,
            r@ == pre + hash@.take(i as int),
        decreases SHARD_DIGITS - i,
    {
        r.push(hash[i]);
        i = i + 1;
        assert(r@ =~= pre + hash@.take(i as int));
    }
    assert(r@ =~= spec_shard_dir(root@, hash@));
    r
}

/// The file a hash is written to under the output root.
pub fn output_file(root: &Vec<u8>, hash: &Vec<u8>) -> (r: Vec<u8>)
    requires
        hash@.len() >= SHARD_DIGITS,
    ensures
        r@ == spec_output_file(root@, hash@),
{
    let mut r = shard_dir(root, hash);
    r.push(47u8);
    append(&mut r, hash);
    append(&mut r, &vec![46u8, 119, 97, 118]);
    assert(r@ =~= spec_output_file(root@, hash@));
    r
}

/// Hashes a candidate and, where the hash has the required prefix, says where
/// it is written; `None` where the prefix rejects it.
pub fn plan(root: &Vec<u8>, prefix: &Vec<u8>, path_a: &Vec<u8>, path_b: &Vec<u8>, p: &Params) -> (r: Option<OutputPlan>)
    ensures
        r.is_some() == has_prefix(spec_identity_hash(path_a@, path_b@, *p), prefix@),
        r matches Some(o) ==> {
            &&& o.hash@ == spec_identity_hash(path_a@, path_b@, *p)
            &&& o.shard_dir@ == spec_shard_dir(root@, o.hash@)
            &&& o.file@ == spec_output_file(root@, o.hash@)
        },
{
    let hash = identity_hash(path_a, path_b, p);
    if !accepts(&hash, prefix) {
        return None;
    }
    let dir = shard_dir(root, &hash);
    let file = output_file(root, &hash);
    Some(OutputPlan { hash, shard_dir: dir, file })
}

/// Synthesis runs only for an accepted candidate whose output does not exist
/// yet, so that a second run over the same tuples writes nothing new.
pub fn synthesis_needed(accepted: bool, output_exists: bool) -> (r: bool)
    ensures
        r == (accepted && !output_exists),
        output_exists ==> !r,
{
    accepted && !output_exists
}

spec fn pow256(n: nat) -> nat
    decreases n,
{
    if n == 0 {
        1
    } else {
        256 * pow256((n - 1) as nat)
    }
}

proof fn lemma_le_bytes_len(v: nat, n: nat)
    ensures
        le_bytes(v, n).len() == n,
    decreases n,
{
    if n > 0 {
        lemma_le_bytes_len(v / 256, (n - 1) as nat);
    }
}

proof fn lemma_le_bytes_injective(u: nat, v: nat, n: nat)
    requires
        le_bytes(u, n) == le_bytes(v, n),
    ensures
        u % pow256(n) == v % pow256(n),
    decreases n,
{
    if n > 0 {
        let p = pow256((n - 1) as nat);
        assert(le_bytes(u, n)[0] == le_bytes(v, n)[0]);
        assert(le_bytes(u, n)[0] == (u % 256) as u8);
        assert(le_bytes(v, n)[0] == (v % 256) as u8);
        vstd::arithmetic::div_mod::lemma_mod_bound(u as int, 256);
        vstd::arithmetic::div_mod::lemma_mod_bound(v as int, 256);
        assert(u % 256 == v % 256);
        assert(le_bytes(u / 256, (n - 1) as nat) =~= le_bytes(u, n).drop_first());
        assert(le_bytes(v / 256, (n - 1) as nat) =~= le_bytes(v, n).drop_first());
        lemma_le_bytes_injective(u / 256, v / 256, (n - 1) as nat);
        lemma_pow256_positive((n - 1) as nat);
        vstd::arithmetic::div_mod::lemma_breakdown(u as int, 256, p as int);
        vstd::arithmetic::div_mod::lemma_breakdown(v as int, 256, p as int);
    }
}

proof fn lemma_pow256_positive(n: nat)
    ensures
        pow256(n) > 0,
    decreases n,
{
    if n > 0 {
        lemma_pow256_positive((n - 1) as nat);
    }
}

proof fn lemma_le8_injective(u: u64, v: u64)
    requires
        le_bytes(u as nat, 8) == le_bytes(v as nat, 8),
    ensures
        u == v,
{
    lemma_le_bytes_injective(u as nat, v as nat, 8);
    assert(pow256(8) == 0x1_0000_0000_0000_0000nat) by {
        reveal_with_fuel(pow256, 9);
    }
    vstd::arithmetic::div_mod::lemma_small_mod(u as nat, pow256(8));
    vstd::arithmetic::div_mod::lemma_small_mod(v as nat, pow256(8));
}

proof fn lemma_le8_first(k: nat)
    requires
        k < 256,
    ensures
        le_bytes(k, 8)[0] == k,
{
    lemma_le_bytes_len(k / 256, 7);
    vstd::arithmetic::div_mod::lemma_small_mod(k, 256);
}

/// Records from position `k` on start with the index byte of a later component.
proof fn lemma_records_first(c: Seq<usize>, k: nat)
    requires
        c.len() <= 256,
        records_from(c, k).len() > 0,
    ensures
        k <= records_from(c, k)[0] < c.len(),
    decreases c.len() - k,
{
    if k < c.len() {
        if c[k as int] != 1 {
            lemma_le8_first(k);
            lemma_le_bytes_len(k, 8);
        } else {
            assert(records_from(c, k) =~= records_from(c, k + 1));
            lemma_records_first(c, k + 1);
        }
    }
}

proof fn lemma_prefix_cancel(x: Seq<u8>, a: Seq<u8>, b: Seq<u8>)
    requires
        x + a == x + b,
    ensures
        a == b,
{
    assert(a =~= (x + a).subrange(x.len() as int, (x + a).len() as int));
    assert(b =~= (x + b).subrange(x.len() as int, (x + b).len() as int));
}

/// Differing components from `k` on give differing records, whatever shared
/// tail `t` follows, as long as `t` cannot start like a record.
proof fn lemma_records_differ(c1: Seq<usize>, c2: Seq<usize>, k: nat, t: Seq<u8>)
    requires
        c1.len() == c2.len(),
        c1.len() <= 256,
        k <= c1.len(),
        c1.subrange(k as int, c1.len() as int) != c2.subrange(k as int, c2.len() as int),
        t.len() == 0 || t[0] >= c1.len(),
    ensures
        records_from(c1, k) + t != records_from(c2, k) + t,
    decreases c1.len() - k,
{
    let n = c1.len() as int;
    if k == n {
        assert(c1.subrange(k as int, n) =~= c2.subrange(k as int, n));
        return;
    }
    let r1 = records_from(c1, k + 1);
    let r2 = records_from(c2, k + 1);
    assert(records_from(c1, k) == record(k, c1[k as int]) + r1);
    assert(records_from(c2, k) == record(k, c2[k as int]) + r2);
    assert(records_from(c1, k) + t =~= record(k, c1[k as int]) + (r1 + t));
    assert(records_from(c2, k) + t =~= record(k, c2[k as int]) + (r2 + t));
    if c1[k as int] == c2[k as int] {
        if c1.subrange(k + 1int, n) == c2.subrange(k + 1int, n) {
            assert(c1.subrange(k as int, n) =~= c2.subrange(k as int, n)) by {
                assert forall|i: int| 0 <= i < n - k implies c1.subrange(k as int, n)[i] == c2.subrange(k as int, n)[i] by {
                    if i > 0 {
                        assert(c1.subrange(k + 1int, n)[i - 1] == c2.subrange(k + 1int, n)[i - 1]);
                    }
                }
            }
        }
        lemma_records_differ(c1, c2, k + 1, t);
        if record(k, c1[k as int]) + (r1 + t) == record(k, c2[k as int]) + (r2 + t) {
            lemma_prefix_cancel(record(k, c1[k as int]), r1 + t, r2 + t);
        }
    } else {
        lemma_le_bytes_len(k, 8);
        lemma_le_bytes_len(c1[k as int] as nat, 8);
        lemma_le_bytes_len(c2[k as int] as nat, 8);
        let s1 = record(k, c1[k as int]) + (r1 + t);
        let s2 = record(k, c2[k as int]) + (r2 + t);
        if c1[k as int] != 1 && c2[k as int] != 1 {
            if s1 == s2 {
                assert(le_bytes(c1[k as int] as nat, 8) =~= s1.subrange(8, 16));
                assert(le_bytes(c2[k as int] as nat, 8) =~= s2.subrange(8, 16));
                lemma_le8_injective(c1[k as int] as u64, c2[k as int] as u64);
            }
        } else if c1[k as int] == 1 {
            lemma_le8_first(k);
            assert(s2[0] == k);
            assert(s1 =~= r1 + t);
            if s1 == s2 {
                if r1.len() > 0 {
                    lemma_records_first(c1, k + 1);
                    assert(s1[0] == r1[0]);
                } else {
                    assert(s1 =~= t);
                }
            }
        } else {
            lemma_le8_first(k);
            assert(s1[0] == k);
            assert(s2 =~= r2 + t);
            if s1 == s2 {
                if r2.len() > 0 {
                    lemma_records_first(c2, k + 1);
                    assert(s2[0] == r2[0]);
                } else {
                    assert(s2 =~= t);
                }
            }
        }
    }
}

/// A tuple whose ratio components are all neutral is identified by its paths
/// and tags alone: neutral components leave no trace in the hashed bytes.
pub proof fn lemma_neutral_ratios_invisible(path_a: Seq<u8>, path_b: Seq<u8>, p: Params)
    requires
        p.a.is_neutral(),
        p.b.is_neutral(),
        p.out.is_neutral(),
    ensures
        identity_input(path_a, path_b, p) == path_a + path_b + tags(p),
{
    let c = p.components();
    assert(records_from(c, 6) =~= Seq::<u8>::empty());
    assert(records_from(c, 5) =~= Seq::<u8>::empty());
    assert(records_from(c, 4) =~= Seq::<u8>::empty());
    assert(records_from(c, 3) =~= Seq::<u8>::empty());
    assert(records_from(c, 2) =~= Seq::<u8>::empty());
    assert(records_from(c, 1) =~= Seq::<u8>::empty());
    assert(records_from(c, 0) =~= Seq::<u8>::empty());
    assert(identity_input(path_a, path_b, p) =~= path_a + path_b + tags(p));
}

/// Two tuples over the same paths, mode and polarity flags whose ratio
/// components differ anywhere, in a value or in which component is not
/// neutral, have differing identity bytes, so their hashes differ unless
/// SHA3-256 collides.
pub proof fn lemma_identity_sensitive(path_a: Seq<u8>, path_b: Seq<u8>, p1: Params, p2: Params)
    requires
        p1.mode == p2.mode,
        p1.invert_a == p2.invert_a,
        p1.invert_b == p2.invert_b,
        p1.components() != p2.components(),
    ensures
        identity_input(path_a, path_b, p1) != identity_input(path_a, path_b, p2),
{
    let c1 = p1.components();
    let c2 = p2.components();
    let t = tags(p1);
    assert(tags(p2) == t);
    assert(t.len() == 0 || t[0] >= 97) by {
        let pt = polarity_tags(p1.invert_a, p1.invert_b);
        assert(pt.len() == 0 || pt[0] >= 97);
        if mode_tag(p1.mode).len() > 0 {
            assert(t[0] == mode_tag(p1.mode)[0]);
        } else {
            assert(t =~= pt);
        }
    }
    assert(c1.subrange(0, 6) =~= c1);
    assert(c2.subrange(0, 6) =~= c2);
    lemma_records_differ(c1, c2, 0, t);
    let x = path_a + path_b;
    assert(identity_input(path_a, path_b, p1) =~= x + (records_from(c1, 0) + t));
    assert(identity_input(path_a, path_b, p2) =~= x + (records_from(c2, 0) + t));
    if identity_input(path_a, path_b, p1) == identity_input(path_a, path_b, p2) {
        lemma_prefix_cancel(x, records_from(c1, 0) + t, records_from(c2, 0) + t);
    }
}

} // verus!
