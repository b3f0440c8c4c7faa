//! Big-endian integers and the byte record that a borrow receipt carries.
use vstd::prelude::*;

verus! {

pub open spec fn pow256(n: nat) -> nat
    decreases n,
{
    if n == 0 {
        1
    } else {
        256 * pow256((n - 1) as nat)
    }
}

/// The `n` low bytes of `x`, most significant first.
pub open spec fn be_bytes(x: nat, n: nat) -> Seq<u8>
    decreases n,
{
    if n == 0 {
        Seq::empty()
    } else {
        be_bytes(x / 256, (n - 1) as nat).push((x % 256) as u8)
    }
}

/// The number that `s` spells in big-endian order.
pub open spec fn from_be(s: Seq<u8>) -> nat
    decreases s.len(),
{
    if s.len() == 0 {
        0
    } else {
        (from_be(s.drop_last()) * 256 + s.last()) as nat
    }
}

pub proof fn lemma_be_bytes_len(x: nat, n: nat)
    ensures
        be_bytes(x, n).len() == n,
    decreases n,
{
    if n > 0 {
        lemma_be_bytes_len(x / 256, (n - 1) as nat);
    }
}

pub proof fn lemma_pow256_facts(n: nat)
    ensures
        pow256(n) >= 1,
        n <= 16 ==> pow256(n) <= pow256(16),
        pow256(4) == 0x1_0000_0000,
        pow256(8) == 0x1_0000_0000_0000_0000,
        pow256(16) == u128::MAX + 1,
    decreases n,
{
    reveal_with_fuel(pow256, 17);
    if n > 0 {
        lemma_pow256_facts((n - 1) as nat);
        if n <= 16 {
            assert(pow256((n - 1) as nat) <= pow256(15)) by {
                lemma_pow256_le((n - 1) as nat, 15);
            }
        }
    }
}

pub proof fn lemma_pow256_le(a: nat, b: nat)
    requires
        a <= b,
    ensures
        pow256(a) <= pow256(b),
    decreases b,
{
    if a < b {
        lemma_pow256_le(a, (b - 1) as nat);
        lemma_pow256_pos((b - 1) as nat);
    }
}

pub proof fn lemma_pow256_pos(n: nat)
    ensures
        pow256(n) >= 1,
    decreases n,
{
    if n > 0 {
        lemma_pow256_pos((n - 1) as nat);
    }
}

pub proof fn lemma_from_be_bound(s: Seq<u8>)
    ensures
        from_be(s) < pow256(s.len()),
    decreases s.len(),
{
    if s.len() > 0 {
        lemma_from_be_bound(s.drop_last());
        let p = pow256((s.len() - 1) as nat);
        let h = from_be(s.drop_last());
        assert(h * 256 + s.last() < 256 * p) by (nonlinear_arith)
            requires
                h < p,
                s.last() < 256,
        ;
    }
}

pub proof fn lemma_from_be_bytes(x: nat, n: nat)
    requires
        x < pow256(n),
    ensures
        from_be(be_bytes(x, n)) == x,
    decreases n,
{
    if n > 0 {
        let p = pow256((n - 1) as nat);
        assert(x / 256 < p) by (nonlinear_arith)
            requires
                x < 256 * p,
        ;
        lemma_from_be_bytes(x / 256, (n - 1) as nat);
        let s = be_bytes(x, n);
        assert(s.drop_last() =~= be_bytes(x / 256, (n - 1) as nat));
    }
}

/// Appends the `n` low bytes of `x`, most significant first.
pub fn push_be(out: &mut Vec<u8>, x: u128, n: usize)
    ensures
        final(out)@ == old(out)@ + be_bytes(x as nat, n as nat),
    decreases n,
{
    if n == 0 {
        assert(old(out)@ + Seq::<u8>::empty() =~= old(out)@);
        return;
    }
    push_be(out, x / 256, n - 1);
    out.push((x % 256) as u8);
    assert(final(out)@ =~= old(out)@ + be_bytes(x as nat, n as nat));
}

/// The number spelled by `b[pos..pos + n]`.
pub fn read_be(b: &[u8], pos: usize, n: usize) -> (r: u128)
    requires
        pos + n <= b@.len(),
        n <= 16,
    ensures
        r == from_be(b@.subrange(pos as int, pos + n)),
    decreases n,
{
    if n == 0 {
        return 0;
    }
    let hi = read_be(b, pos, n - 1);
    let ghost s = b@.subrange(pos as int, pos + n);
    proof {
        assert(s.drop_last() =~= b@.subrange(pos as int, pos + n - 1));
        lemma_from_be_bound(s.drop_last());
        lemma_pow256_facts((n - 1) as nat);
        lemma_pow256_le((n - 1) as nat, 15);
        reveal_with_fuel(pow256, 17);
        assert(hi * 256 + 255 <= u128::MAX) by (nonlinear_arith)
            requires
                hi < pow256(15),
                pow256(15) * 256 == u128::MAX + 1,
        ;
    }
    let len = b.len();
    assert(pos + n <= len);
    hi * 256 + b[pos + (n - 1)] as u128
}

/// Bytes of a borrow receipt's metadata record.
#[derive(Debug)]
pub struct DebtMetadata {
    pub position_id: Vec<u8>,
    pub timestamp: u64,
    pub collateral_amount: u128,
    pub collateral_identifier: Vec<u8>,
    pub collateral_timestamp: u64,
}

/// The mathematical content of a `DebtMetadata`.
pub struct MetadataView {
    pub position_id: Seq<u8>,
    pub timestamp: u64,
    pub collateral_amount: u128,
    pub collateral_identifier: Seq<u8>,
    pub collateral_timestamp: u64,
}

impl View for DebtMetadata {
    type V = MetadataView;

    open spec fn view(&self) -> MetadataView {
        MetadataView {
            position_id: self.position_id@,
            timestamp: self.timestamp,
            collateral_amount: self.collateral_amount,
            collateral_identifier: self.collateral_identifier@,
            collateral_timestamp: self.collateral_timestamp,
        }
    }
}

/// Format version written in the first byte of every record.
pub const METADATA_VERSION: u8 = 1;

/// Both variable-length fields have lengths that fit the 4-byte length prefix.
pub open spec fn encodable(m: MetadataView) -> bool {
    m.position_id.len() < 0x1_0000_0000 && m.collateral_identifier.len() < 0x1_0000_0000
}

/// Version byte, then each field in order: byte strings with a 4-byte length prefix,
/// integers big-endian at their full width.
pub open spec fn encoding(m: MetadataView) -> Seq<u8> {
    seq![METADATA_VERSION] + be_bytes(m.position_id.len(), 4) + m.position_id + be_bytes(
        m.timestamp as nat,
        8,
    ) + be_bytes(m.collateral_amount as nat, 16) + be_bytes(m.collateral_identifier.len(), 4)
        + m.collateral_identifier + be_bytes(m.collateral_timestamp as nat, 8)
}

/// The record that `b` encodes, if it encodes one.
pub open spec fn decoded(b: Seq<u8>) -> Option<MetadataView> {
    if exists|m: MetadataView| encodable(m) && #[trigger] encoding(m) == b {
        Some(choose|m: MetadataView| encodable(m) && #[trigger] encoding(m) == b)
    } else {
        None
    }
}

/// Layout of an encoding: where each field starts.
proof fn lemma_encoding_layout(m: MetadataView)
    requires
        encodable(m),
    ensures
        ({
            let e = encoding(m);
            let a = m.position_id.len() as int;
            let c = m.collateral_identifier.len() as int;
            &&& e.len() == 1 + 4 + a + 8 + 16 + 4 + c + 8
            &&& e[0] == METADATA_VERSION
            &&& e.subrange(1, 5) == be_bytes(a as nat, 4)
            &&& e.subrange(5, 5 + a) == m.position_id
            &&& e.subrange(5 + a, 13 + a) == be_bytes(m.timestamp as nat, 8)
            &&& e.subrange(13 + a, 29 + a) == be_bytes(m.collateral_amount as nat, 16)
            &&& e.subrange(29 + a, 33 + a) == be_bytes(c as nat, 4)
            &&& e.subrange(33 + a, 33 + a + c) == m.collateral_identifier
            &&& e.subrange(33 + a + c, 41 + a + c) == be_bytes(m.collateral_timestamp as nat, 8)
        }),
{
    let a = m.position_id.len() as int;
    let c = m.collateral_identifier.len() as int;
    lemma_be_bytes_len(a as nat, 4);
    lemma_be_bytes_len(m.timestamp as nat, 8);
    lemma_be_bytes_len(m.collateral_amount as nat, 16);
    lemma_be_bytes_len(c as nat, 4);
    lemma_be_bytes_len(m.collateral_timestamp as nat, 8);
    let e = encoding(m);
    assert(e.subrange(1, 5) =~= be_bytes(a as nat, 4));
    assert(e.subrange(5, 5 + a) =~= m.position_id);
    assert(e.subrange(5 + a, 13 + a) =~= be_bytes(m.timestamp as nat, 8));
    assert(e.subrange(13 + a, 29 + a) =~= be_bytes(m.collateral_amount as nat, 16));
    assert(e.subrange(29 + a, 33 + a) =~= be_bytes(c as nat, 4));
    assert(e.subrange(33 + a, 33 + a + c) =~= m.collateral_identifier);
    assert(e.subrange(33 + a + c, 41 + a + c) =~= be_bytes(m.collateral_timestamp as nat, 8));
}

/// Distinct records have distinct encodings.
pub proof fn lemma_encoding_injective(m1: MetadataView, m2: MetadataView)
    requires
        encodable(m1),
        encodable(m2),
        encoding(m1) == encoding(m2),
    ensures
        m1 == m2,
{
    lemma_encoding_layout(m1);
    lemma_encoding_layout(m2);
    lemma_pow256_facts(0);
    let e = encoding(m1);
    let a1 = m1.position_id.len();
    let a2 = m2.position_id.len();
    lemma_from_be_bytes(a1, 4);
    lemma_from_be_bytes(a2, 4);
    assert(a1 == a2);
    let c1 = m1.collateral_identifier.len();
    let c2 = m2.collateral_identifier.len();
    lemma_from_be_bytes(c1, 4);
    lemma_from_be_bytes(c2, 4);
    assert(c1 == c2);
    lemma_from_be_bytes(m1.timestamp as nat, 8);
    lemma_from_be_bytes(m2.timestamp as nat, 8);
    lemma_from_be_bytes(m1.collateral_amount as nat, 16);
    lemma_from_be_bytes(m2.collateral_amount as nat, 16);
    lemma_from_be_bytes(m1.collateral_timestamp as nat, 8);
    lemma_from_be_bytes(m2.collateral_timestamp as nat, 8);
}

/// Decoding undoes encoding.
pub proof fn lemma_decoded_encoding(m: MetadataView)
    requires
        encodable(m),
    ensures
        decoded(encoding(m)) == Some(m),
{
    let m2 = choose|m2: MetadataView| encodable(m2) && #[trigger] encoding(m2) == encoding(m);
    lemma_encoding_injective(m, m2);
}

/// Writes a receipt's metadata record.
pub fn encode_metadata(m: &DebtMetadata) -> (r: Vec<u8>)
    requires
        encodable(m@),
    ensures
        r@ == encoding(m@),
{
    let mut out: Vec<u8> = Vec::new();
    out.push(METADATA_VERSION);
    push_be(&mut out, m.position_id.len() as u128, 4);
    let mut i: usize = 0;
    let ghost start = out@;
    while i < m.position_id.len()
        invariant
            i <= m.position_id@.len(),
            out@ == start + m.position_id@.subrange(0, i as int),
        decreases m.position_id@.len() - i,
    {
        out.push(m.position_id[i]);
        i = i + 1;
        assert(out@ =~= start + m.position_id@.subrange(0, i as int));
    }
    assert(m.position_id@.subrange(0, m.position_id@.len() as int) =~= m.position_id@);
    push_be(&mut out, m.timestamp as u128, 8);
    push_be(&mut out, m.collateral_amount, 16);
    push_be(&mut out, m.collateral_identifier.len() as u128, 4);
    let ghost start2 = out@;
    i = 0;
    while i < m.collateral_identifier.len()
        invariant
            i <= m.collateral_identifier@.len(),
            out@ == start2 + m.collateral_identifier@.subrange(0, i as int),
        decreases m.collateral_identifier@.len() - i,
    {
        out.push(m.collateral_identifier[i]);
        i = i + 1;
        assert(out@ =~= start2 + m.collateral_identifier@.subrange(0, i as int));
    }
    assert(m.collateral_identifier@.subrange(0, m.collateral_identifier@.len() as int)
        =~= m.collateral_identifier@);
    push_be(&mut out, m.collateral_timestamp as u128, 8);
    assert(out@ =~= encoding(m@));
    out
}

/// Copies `b[from..to]`.
fn copy_range(b: &[u8], from: usize, to: usize) -> (r: Vec<u8>)
    requires
        from <= to <= b@.len(),
    ensures
        r@ == b@.subrange(from as int, to as int),
{
    let mut out: Vec<u8> = Vec::new();
    let mut i: usize = from;
    while i < to
        invariant
            from <= i <= to,
            to <= b@.len(),
            out@ == b@.subrange(from as int, i as int),
        decreases to - i,
    {
        out.push(b[i]);
        i = i + 1;
        assert(out@ =~= b@.subrange(from as int, i as int));
    }
    out
}

/// Reads a receipt's metadata record; `None` unless `b` is exactly the encoding of one.
pub fn decode_metadata(b: &[u8]) -> (r: Option<DebtMetadata>)
    ensures
        match r {
            Some(m) => decoded(b@) == Some(m@),
            None => decoded(b@) is None,
        },
{
    let len = b.len();
    if len < 5 || b[0] != METADATA_VERSION {
        proof { lemma_no_record(b@) }
        return None;
    }
    let a128 = read_be(b, 1, 4);
    proof {
        lemma_from_be_bound(b@.subrange(1, 5));
        lemma_pow256_facts(4);
    }
    let a = a128 as usize;
    if a > len || len - a < 41 {
        proof { lemma_no_record(b@) }
        return None;
    }
    let c128 = read_be(b, 29 + a, 4);
    proof {
        lemma_from_be_bound(b@.subrange(29 + a, 33 + a));
    }
    let c = c128 as usize;
    if c != len - a - 41 {
        proof { lemma_no_record(b@) }
        return None;
    }
    let position_id = copy_range(b, 5, 5 + a);
    let timestamp = read_be(b, 5 + a, 8);
    let collateral_amount = read_be(b, 13 + a, 16);
    let collateral_identifier = copy_range(b, 33 + a, 33 + a + c);
    let collateral_timestamp = read_be(b, 33 + a + c, 8);
    proof {
        lemma_from_be_bound(b@.subrange(5 + a, 13 + a));
        lemma_from_be_bound(b@.subrange(33 + a + c, 41 + a + c));
        lemma_pow256_facts(8);
    }
    let m = DebtMetadata {
        position_id,
        timestamp: timestamp as u64,
        collateral_amount,
        collateral_identifier,
        collateral_timestamp: collateral_timestamp as u64,
    };
    proof {
        lemma_encoding_layout(m@);
        lemma_spells(b@.subrange(1, 5), 4);
        lemma_spells(b@.subrange(5 + a, 13 + a), 8);
        lemma_spells(b@.subrange(13 + a, 29 + a), 16);
        lemma_spells(b@.subrange(29 + a, 33 + a), 4);
        lemma_spells(b@.subrange(33 + a + c, 41 + a + c), 8);
        let e = encoding(m@);
        assert forall|k: int| 0 <= k < b@.len() implies e[k] == b@[k] by {
            if k == 0 {
            } else if k < 5 {
                assert(e.subrange(1, 5)[k - 1] == b@.subrange(1, 5)[k - 1]);
            } else if k < 5 + a {
                assert(e.subrange(5, 5 + a)[k - 5] == b@.subrange(5, 5 + a)[k - 5]);
            } else if k < 13 + a {
                assert(e.subrange(5 + a, 13 + a)[k - 5 - a] == b@.subrange(5 + a, 13 + a)[k - 5
                    - a]);
            } else if k < 29 + a {
                assert(e.subrange(13 + a, 29 + a)[k - 13 - a] == b@.subrange(13 + a, 29 + a)[k
                    - 13 - a]);
            } else if k < 33 + a {
                assert(e.subrange(29 + a, 33 + a)[k - 29 - a] == b@.subrange(29 + a, 33 + a)[k
                    - 29 - a]);
            } else if k < 33 + a + c {
                assert(e.subrange(33 + a, 33 + a + c)[k - 33 - a] == b@.subrange(
                    33 + a,
                    33 + a + c,
                )[k - 33 - a]);
            } else {
                assert(e.subrange(33 + a + c, 41 + a + c)[k - 33 - a - c] == b@.subrange(
                    33 + a + c,
                    41 + a + c,
                )[k - 33 - a - c]);
            }
        }
        assert(e =~= b@);
        lemma_decoded_encoding(m@);
    }
    Some(m)
}

/// A byte string of width `n` is the big-endian spelling of the number it spells.
proof fn lemma_spells(s: Seq<u8>, n: nat)
    requires
        s.len() == n,
    ensures
        be_bytes(from_be(s), n) == s,
    decreases n,
{
    if n > 0 {
        let x = from_be(s);
        let h = from_be(s.drop_last());
        assert(x / 256 == h && x % 256 == s.last()) by (nonlinear_arith)
            requires
                x == h * 256 + s.last(),
                0 <= s.last() < 256,
                h >= 0,
        ;
        lemma_spells(s.drop_last(), (n - 1) as nat);
        assert(be_bytes(x, n) =~= s);
    }
}

/// A byte string with a wrong version, or whose lengths do not add up, encodes nothing.
proof fn lemma_no_record(b: Seq<u8>)
    requires
        b.len() < 5 || b[0] != METADATA_VERSION || ({
            let a = from_be(b.subrange(1, 5)) as int;
            a > b.len() || b.len() - a < 41 || from_be(b.subrange(29 + a, 33 + a)) != b.len()
                - a - 41
        }),
    ensures
        decoded(b) is None,
{
    if exists|m: MetadataView| encodable(m) && #[trigger] encoding(m) == b {
        let m = choose|m: MetadataView| encodable(m) && #[trigger] encoding(m) == b;
        lemma_encoding_layout(m);
        lemma_pow256_facts(0);
        lemma_from_be_bytes(m.position_id.len(), 4);
        lemma_from_be_bytes(m.collateral_identifier.len(), 4);
    }
}

} // verus!
