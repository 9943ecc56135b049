//! The five-field header record that opens every frame.
//!
//! The record is written in the Avro binary encoding: each field in turn,
//! as a zigzag integer in little-endian base-128 groups.

use vstd::prelude::*;
use etptypes::energistics::etp::v12::datatypes::message_header::MessageHeader as EtpHeader;
use etptypes::helpers::AvroSerializable;

verus! {

#[derive(Debug, PartialEq, Eq, Structural, Clone, Copy)]
pub struct MessageHeader {
    pub protocol: i32,
    pub message_type: i32,
    pub correlation_id: i64,
    pub message_id: i64,
    pub message_flags: i32,
}

/// Zigzag mapping: 0, -1, 1, -2, ... to 0, 1, 2, 3, ...
pub open spec fn zigzag(n: int) -> nat {
    if n >= 0 {
        (2 * n) as nat
    } else {
        (-2 * n - 1) as nat
    }
}

/// Inverse of `zigzag`.
pub open spec fn unzigzag(v: nat) -> int {
    if v % 2 == 0 {
        (v / 2) as int
    } else {
        -((v + 1) / 2)
    }
}

/// Base-128 groups of `u`, lowest first, each but the last with its top bit set.
pub open spec fn varint(u: nat) -> Seq<u8>
    decreases u,
{
    if u < 128 {
        seq![u as u8]
    } else {
        seq![(u % 128 + 128) as u8] + varint(u / 128)
    }
}

/// The bytes of a header record.
pub open spec fn header_record(h: MessageHeader) -> Seq<u8> {
    varint(zigzag(h.protocol as int)) + varint(zigzag(h.message_type as int)) + varint(
        zigzag(h.correlation_id as int),
    ) + varint(zigzag(h.message_id as int)) + varint(zigzag(h.message_flags as int))
}

/// Index of the first byte at or after `i` whose top bit is clear.
pub open spec fn group_end(s: Seq<u8>, i: int) -> Option<int>
    decreases s.len() - i,
{
    if i < 0 || i >= s.len() {
        None
    } else if s[i] < 128 {
        Some(i)
    } else {
        group_end(s, i + 1)
    }
}

/// Value of the base-128 groups `s[i..=j]`, lowest first.
pub open spec fn groups_value(s: Seq<u8>, i: int, j: int) -> nat
    decreases j - i,
{
    if i >= j {
        s[j] as nat
    } else {
        (s[i] % 128) as nat + 128 * groups_value(s, i + 1, j)
    }
}

/// The unsigned integer that starts at `i`, with the index just after it.
pub open spec fn read_varint(s: Seq<u8>, i: int) -> Option<(nat, int)> {
    match group_end(s, i) {
        Some(j) => Some((groups_value(s, i, j), j + 1)),
        None => None,
    }
}

/// A zigzag integer at `i` that lies in `[lo, hi]`, with the index after it.
#[verifier::opaque]
pub open spec fn read_zigzag(s: Seq<u8>, i: int, lo: int, hi: int) -> Option<(int, int)> {
    match read_varint(s, i) {
        Some((v, k)) => if lo <= unzigzag(v) <= hi {
            Some((unzigzag(v), k))
        } else {
            None
        },
        None => None,
    }
}

/// The header record that opens `s`, with its length.
pub open spec fn parse_header(s: Seq<u8>) -> Option<(MessageHeader, int)> {
    match read_zigzag(s, 0, -0x8000_0000, 0x7fff_ffff) {
        None => None,
        Some((p, k1)) => match read_zigzag(s, k1, -0x8000_0000, 0x7fff_ffff) {
            None => None,
            Some((t, k2)) => match read_zigzag(s, k2, i64::MIN as int, i64::MAX as int) {
                None => None,
                Some((c, k3)) => match read_zigzag(s, k3, i64::MIN as int, i64::MAX as int) {
                    None => None,
                    Some((m, k4)) => match read_zigzag(s, k4, -0x8000_0000, 0x7fff_ffff) {
                        None => None,
                        Some((f, k5)) => Some(
                            (
                                MessageHeader {
                                    protocol: p as i32,
                                    message_type: t as i32,
                                    correlation_id: c as i64,
                                    message_id: m as i64,
                                    message_flags: f as i32,
                                },
                                k5,
                            ),
                        ),
                    },
                },
            },
        },
    }
}

pub proof fn lemma_unzigzag(n: int)
    ensures
        unzigzag(zigzag(n)) == n,
{
}

/// A varint is read back whole, whatever precedes or follows it.
pub proof fn lemma_read_varint(pre: Seq<u8>, u: nat, rest: Seq<u8>)
    ensures
        read_varint(pre + varint(u) + rest, pre.len() as int) == Some(
            (u, (pre.len() + varint(u).len()) as int),
        ),
    decreases u,
{
    let s = pre + varint(u) + rest;
    let i = pre.len() as int;
    if u < 128 {
        assert(s[i] == u as u8);
        assert(group_end(s, i) == Some(i));
    } else {
        let b = (u % 128 + 128) as u8;
        let pre2 = pre.push(b);
        assert(s =~= pre2 + varint(u / 128) + rest);
        lemma_read_varint(pre2, u / 128, rest);
        assert(s[i] == b);
        let j = group_end(s, i + 1)->0;
        assert(group_end(s, i) == group_end(s, i + 1));
        assert(groups_value(s, i + 1, j) == u / 128);
        assert(i < j);
        assert((b % 128) as nat == u % 128);
        assert(groups_value(s, i, j) == (s[i] % 128) as nat + 128 * groups_value(s, i + 1, j));
    }
}

proof fn lemma_read_zigzag(pre: Seq<u8>, n: int, rest: Seq<u8>, lo: int, hi: int)
    requires
        lo <= n <= hi,
    ensures
        read_zigzag(pre + varint(zigzag(n)) + rest, pre.len() as int, lo, hi) == Some(
            (n, (pre.len() + varint(zigzag(n)).len()) as int),
        ),
{
    reveal(read_zigzag);
    lemma_read_varint(pre, zigzag(n), rest);
}

/// A header record is read back as the header it was made from.
pub proof fn lemma_header_round_trip(h: MessageHeader, rest: Seq<u8>)
    ensures
        parse_header(header_record(h) + rest) == Some((h, header_record(h).len() as int)),
{
    let vp = varint(zigzag(h.protocol as int));
    let vt = varint(zigzag(h.message_type as int));
    let vc = varint(zigzag(h.correlation_id as int));
    let vm = varint(zigzag(h.message_id as int));
    let vf = varint(zigzag(h.message_flags as int));
    let s = header_record(h) + rest;
    let (i32lo, i32hi, i64lo, i64hi) = (
        -0x8000_0000int,
        0x7fff_ffffint,
        i64::MIN as int,
        i64::MAX as int,
    );
    assert(s =~= Seq::<u8>::empty() + vp + (vt + vc + vm + vf + rest));
    lemma_read_zigzag(Seq::<u8>::empty(), h.protocol as int, vt + vc + vm + vf + rest, i32lo, i32hi);
    assert(s =~= vp + vt + (vc + vm + vf + rest));
    lemma_read_zigzag(vp, h.message_type as int, vc + vm + vf + rest, i32lo, i32hi);
    assert(s =~= (vp + vt) + vc + (vm + vf + rest));
    lemma_read_zigzag(vp + vt, h.correlation_id as int, vm + vf + rest, i64lo, i64hi);
    assert(s =~= (vp + vt + vc) + vm + (vf + rest));
    lemma_read_zigzag(vp + vt + vc, h.message_id as int, vf + rest, i64lo, i64hi);
    assert(s =~= (vp + vt + vc + vm) + vf + rest);
    lemma_read_zigzag(vp + vt + vc + vm, h.message_flags as int, rest, i32lo, i32hi);
    assert(header_record(h).len() == vp.len() + vt.len() + vc.len() + vm.len() + vf.len());
}

proof fn lemma_group_end_bounds(s: Seq<u8>, i: int)
    ensures
        group_end(s, i) matches Some(j) ==> 0 <= i <= j < s.len() && s[j] < 128 && forall|
            k: int,
        | i <= k < j ==> s[k] >= 128,
    decreases s.len() - i,
{
    if 0 <= i < s.len() && s[i] >= 128 {
        lemma_group_end_bounds(s, i + 1);
    }
}

/// Relies on etptypes' `MessageHeader::avro_serialize`, which writes the
/// record through apache-avro: each field as a zigzag varint, in order. A
/// record of five integers always validates against its schema, so the
/// write does not fail.
#[verifier::external_body]
fn serialize_header(h: &MessageHeader) -> (r: Option<Vec<u8>>)
    ensures
        r is Some,
        r matches Some(b) ==> b@ == header_record(*h),
{
    let record = EtpHeader {
        protocol: h.protocol,
        message_type: h.message_type,
        correlation_id: h.correlation_id,
        message_id: h.message_id,
        message_flags: h.message_flags,
    };
    record.avro_serialize().ok()
}

impl MessageHeader {
    /// The header record's bytes.
    pub fn encode(&self) -> (r: Vec<u8>)
        ensures
            r@ == header_record(*self),
    {
        match serialize_header(self) {
            Some(b) => b,
            None => Vec::new(),
        }
    }

    /// Reads the header record at the start of `bytes`, with its length.
    pub fn decode(bytes: &Vec<u8>) -> (r: Option<(MessageHeader, usize)>)
        ensures
            r matches Some((h, n)) ==> n <= bytes.len(),
            parse_header(bytes@) matches Some((h, n)) ==> 0 <= n <= bytes.len(),
            match parse_header(bytes@) {
                Some((h, n)) => r == Some((h, n as usize)),
                None => r is None,
            },
    {
        let (p, k1) = match read_zigzag_exec(bytes, 0, -0x8000_0000, 0x7fff_ffff) {
            Some(x) => x,
            None => return None,
        };
        let (t, k2) = match read_zigzag_exec(bytes, k1, -0x8000_0000, 0x7fff_ffff) {
            Some(x) => x,
            None => return None,
        };
        let (c, k3) = match read_zigzag_exec(bytes, k2, i64::MIN, i64::MAX) {
            Some(x) => x,
            None => return None,
        };
        let (m, k4) = match read_zigzag_exec(bytes, k3, i64::MIN, i64::MAX) {
            Some(x) => x,
            None => return None,
        };
        let (f, k5) = match read_zigzag_exec(bytes, k4, -0x8000_0000, 0x7fff_ffff) {
            Some(x) => x,
            None => return None,
        };
        let h = MessageHeader {
            protocol: p as i32,
            message_type: t as i32,
            correlation_id: c,
            message_id: m,
            message_flags: f as i32,
        };
        assert(read_zigzag(bytes@, 0, -0x8000_0000, 0x7fff_ffff) == Some((p as int, k1 as int)));
        assert(read_zigzag(bytes@, k1 as int, -0x8000_0000, 0x7fff_ffff) == Some((t as int, k2 as int)));
        assert(read_zigzag(bytes@, k2 as int, i64::MIN as int, i64::MAX as int) == Some((c as int, k3 as int)));
        assert(read_zigzag(bytes@, k3 as int, i64::MIN as int, i64::MAX as int) == Some((m as int, k4 as int)));
        assert(read_zigzag(bytes@, k4 as int, -0x8000_0000, 0x7fff_ffff) == Some((f as int, k5 as int)));
        assert(parse_header(bytes@) == Some((h, k5 as int)));
        Some(
            (
                MessageHeader {
                    protocol: p as i32,
                    message_type: t as i32,
                    correlation_id: c,
                    message_id: m,
                    message_flags: f as i32,
                },
                k5,
            ),
        )
    }
}

/// Reads the unsigned varint at `pos`; `None` where there is none or it
/// exceeds 64 bits.
fn read_varint_exec(s: &Vec<u8>, pos: usize) -> (r: Option<(u64, usize)>)
    ensures
        r matches Some((v, k)) ==> pos < k <= s.len() && read_varint(s@, pos as int) == Some(
            (v as nat, k as int),
        ),
        r is None ==> (read_varint(s@, pos as int) matches Some((v, k)) ==> v > u64::MAX),
{
    let mut j: usize = pos;
    while j < s.len() && s[j] >= 128
        invariant
            pos <= j,
            pos >= s.len() ==> j == pos,
            group_end(s@, pos as int) == group_end(s@, j as int),
            forall|k: int| pos <= k < j ==> s@[k] >= 128,
        decreases s.len() - j,
    {
        j = j + 1;
    }
    if j >= s.len() {
        return None;
    }
    let ghost end = j as int;
    assert(group_end(s@, j as int) == Some(end));
    proof {
        lemma_group_end_bounds(s@, pos as int);
    }
    let mut v: u64 = s[j] as u64;
    let mut i: usize = j;
    while i > pos
        invariant
            pos <= i <= end,
            end < s.len(),
            group_end(s@, pos as int) == Some(end),
            v as nat == groups_value(s@, i as int, end),
            forall|k: int| pos <= k < end ==> s@[k] >= 128,
        decreases i,
    {
        let low = (s[i - 1] - 128) as u64;
        assert(groups_value(s@, i - 1, end) == (s@[i - 1] % 128) as nat + 128 * groups_value(
            s@,
            i as int,
            end,
        ));
        if v > (u64::MAX - low) / 128 {
            proof {
                lemma_groups_value_grows(s@, pos as int, (i - 1) as int, end);
                let m = u64::MAX as int;
                assert((low as int) + 128 * (v as int) > m) by (nonlinear_arith)
                    requires
                        v as int > (m - low as int) / 128,
                        0 <= low as int <= m,
                ;
                assert(s@[i - 1] % 128 == s@[i - 1] - 128);
            }
            return None;
        }
        v = v * 128 + low;
        i = i - 1;
    }
    Some((v, j + 1))
}

proof fn lemma_groups_value_grows(s: Seq<u8>, lo: int, i: int, j: int)
    requires
        lo <= i <= j,
    ensures
        groups_value(s, lo, j) >= groups_value(s, i, j),
    decreases i - lo,
{
    if lo < i {
        lemma_groups_value_grows(s, lo + 1, i, j);
    }
}

/// Reads the zigzag integer at `pos` when it lies within `[lo, hi]`.
fn read_zigzag_exec(s: &Vec<u8>, pos: usize, lo: i64, hi: i64) -> (r: Option<(i64, usize)>)
    ensures
        r matches Some((n, k)) ==> pos < k <= s.len() && read_zigzag(
            s@,
            pos as int,
            lo as int,
            hi as int,
        ) == Some((n as int, k as int)),
        r is None ==> read_zigzag(s@, pos as int, lo as int, hi as int) is None,
{
    reveal(read_zigzag);
    match read_varint_exec(s, pos) {
        None => {
            proof {
                if let Some((v, k)) = read_varint(s@, pos as int) {
                    assert(v > u64::MAX);
                    assert(unzigzag(v) > i64::MAX || unzigzag(v) < i64::MIN);
                }
            }
            None
        },
        Some((v, k)) => {
            let n: i64 = if v % 2 == 0 {
                (v / 2) as i64
            } else {
                -((v / 2) as i64) - 1
            };
            assert(n as int == unzigzag(v as nat));
            if lo <= n && n <= hi {
                Some((n, k))
            } else {
                None
            }
        },
    }
}

} // verus!
