//! The wire codec: commands are carried as JSON objects tagged by
//! `messageName`, with ballots as `[round, node]` pairs and byte payloads
//! as arrays of integers. The encoder is proved to produce exactly the
//! encoding that `enc_command` describes; the decoder accepts a byte
//! string only if it is exactly the encoding of the command it returns.

use vstd::prelude::*;
use crate::{Ballot, Slot};
use crate::commands::{pairs_view, triples_view, Command, CommandV};
use crate::value::{bytes_from_vec, bytes_to_vec, bytes_view};

verus! {

/// Decimal digits of `n`, most significant first.
pub open spec fn enc_nat(n: nat) -> Seq<u8>
    decreases n,
{
    if n < 10 {
        seq![(48 + n) as u8]
    } else {
        enc_nat(n / 10).push((48 + n % 10) as u8)
    }
}

/// The number a digit string denotes, most significant digit first.
pub open spec fn nat_of_digits(s: Seq<u8>) -> nat
    decreases s.len(),
{
    if s.len() == 0 {
        0
    } else {
        nat_of_digits(s.drop_last()) * 10 + (if s.last() >= 48 {
            (s.last() - 48) as nat
        } else {
            0
        })
    }
}

/// Reading back the decimal digits of a number gives the number: the
/// numeric layer of the wire format round-trips.
pub proof fn lemma_digits_round_trip(n: nat)
    ensures
        nat_of_digits(enc_nat(n)) == n,
    decreases n,
{
    if n < 10 {
        let e = enc_nat(n);
        assert(e == seq![(48 + n) as u8]);
        assert(e.drop_last() =~= Seq::<u8>::empty());
        assert(e.last() == (48 + n) as u8);
        assert(e.last() >= 48);
        assert((e.last() - 48) as nat == n);
        assert(nat_of_digits(e) == nat_of_digits(e.drop_last()) * 10 + n);
        assert(nat_of_digits(e.drop_last()) == 0);
    } else {
        lemma_digits_round_trip(n / 10);
        let e = enc_nat(n);
        assert(e == enc_nat(n / 10).push((48 + n % 10) as u8));
        assert(e.drop_last() =~= enc_nat(n / 10));
        assert(e.last() == (48 + n % 10) as u8);
        assert(e.last() >= 48);
        assert((e.last() - 48) as nat == n % 10);
        assert(nat_of_digits(e) == nat_of_digits(enc_nat(n / 10)) * 10 + n % 10);
        assert(nat_of_digits(e) == (n / 10) * 10 + n % 10);
        vstd::arithmetic::div_mod::lemma_fundamental_div_mod(n as int, 10);
        assert((n / 10) * 10 + n % 10 == n);
    }
}

/// Elements encoded by `f`, joined with commas.
pub open spec fn enc_items<A>(s: Seq<A>, f: spec_fn(A) -> Seq<u8>) -> Seq<u8>
    decreases s.len(),
{
    if s.len() == 0 {
        Seq::empty()
    } else if s.len() == 1 {
        f(s[0])
    } else {
        f(s[0]) + seq![44] + enc_items(s.drop_first(), f)
    }
}

/// Appending an element extends the joined encoding by a comma and the
/// element, or is the element alone for an empty list.
pub proof fn lemma_enc_items_push<A>(s: Seq<A>, x: A, f: spec_fn(A) -> Seq<u8>)
    ensures
        enc_items(s.push(x), f) == if s.len() == 0 {
            f(x)
        } else {
            enc_items(s, f) + seq![44] + f(x)
        },
    decreases s.len(),
{
    let p = s.push(x);
    if s.len() == 0 {
        assert(p.len() == 1);
        assert(p[0] == x);
    } else {
        assert(p.len() >= 2);
        assert(p[0] == s[0]);
        assert(p.drop_first() =~= s.drop_first().push(x));
        lemma_enc_items_push(s.drop_first(), x, f);
        if s.len() == 1 {
            assert(enc_items(s.drop_first().push(x), f) == f(x));
            assert(enc_items(p, f) == f(s[0]) + seq![44] + f(x));
        } else {
            assert(enc_items(p, f) == f(s[0]) + seq![44] + (enc_items(s.drop_first(), f)
                + seq![44] + f(x)));
            assert(enc_items(p, f) =~= enc_items(s, f) + seq![44] + f(x));
        }
    }
}

/// A ballot as `[round,node]`.
pub open spec fn enc_ballot(b: Ballot) -> Seq<u8> {
    seq![91] + enc_nat(b.0 as nat) + seq![44] + enc_nat(b.1 as nat) + seq![93]
}

/// A byte payload as an array of integers.
pub open spec fn enc_bytes_arr(s: Seq<u8>) -> Seq<u8> {
    seq![91] + enc_items(s, |x: u8| enc_nat(x as nat)) + seq![93]
}

/// A `[slot,value]` pair.
pub open spec fn enc_pair(p: (Slot, Seq<u8>)) -> Seq<u8> {
    seq![91] + enc_nat(p.0 as nat) + seq![44] + enc_bytes_arr(p.1) + seq![93]
}

/// A `[slot,ballot,value]` triple.
pub open spec fn enc_triple(t: (Slot, Ballot, Seq<u8>)) -> Seq<u8> {
    seq![91] + enc_nat(t.0 as nat) + seq![44] + enc_ballot(t.1) + seq![44] + enc_bytes_arr(
        t.2,
    ) + seq![93]
}

/// The opening of every command object, up to the tag.
pub open spec fn lit_head() -> Seq<u8> {
    seq![
        123, 34, 109, 101, 115, 115, 97, 103, 101, 78, 97, 109, 101, 34, 58,
        34,
    ]
}

/// The middle of every command object, between the tag and the payload.
pub open spec fn lit_mid() -> Seq<u8> {
    seq![34, 44, 34, 112, 97, 121, 108, 111, 97, 100, 34, 58]
}

/// The tag naming a command variant.
pub open spec fn enc_tag(c: CommandV) -> Seq<u8> {
    match c {
        CommandV::Proposal { .. } => seq![80, 114, 111, 112, 111, 115, 97, 108],
        CommandV::Prepare { .. } => seq![80, 114, 101, 112, 97, 114, 101],
        CommandV::Promise { .. } => seq![80, 114, 111, 109, 105, 115, 101],
        CommandV::Accept { .. } => seq![65, 99, 99, 101, 112, 116],
        CommandV::Reject { .. } => seq![82, 101, 106, 101, 99, 116],
        CommandV::Accepted { .. } => seq![65, 99, 99, 101, 112, 116, 101, 100],
        CommandV::Resolution { .. } => seq![
            82, 101, 115, 111, 108, 117, 116, 105, 111, 110,
        ],
        CommandV::Catchup { .. } => seq![67, 97, 116, 99, 104, 117, 112],
    }
}

/// The payload of a command.
pub open spec fn enc_payload(c: CommandV) -> Seq<u8> {
    match c {
        CommandV::Proposal { payload } => enc_bytes_arr(payload),
        CommandV::Prepare { ballot } => enc_ballot(ballot),
        CommandV::Promise { node, ballot, accepted } => seq![91] + enc_nat(node as nat)
            + seq![44] + enc_ballot(ballot) + seq![44] + (seq![91] + enc_items(
            accepted,
            |t: (Slot, Ballot, Seq<u8>)| enc_triple(t),
        ) + seq![93]) + seq![93],
        CommandV::Accept { ballot, slot_values } => seq![91] + enc_ballot(ballot) + seq![44]
            + (seq![91] + enc_items(slot_values, |p: (Slot, Seq<u8>)| enc_pair(p))
            + seq![93]) + seq![93],
        CommandV::Reject { node, proposed, preempted } => seq![91] + enc_nat(node as nat)
            + seq![44] + enc_ballot(proposed) + seq![44] + enc_ballot(preempted)
            + seq![93],
        CommandV::Accepted { node, ballot, slots } => seq![91] + enc_nat(node as nat)
            + seq![44] + enc_ballot(ballot) + seq![44] + (seq![91] + enc_items(
            slots,
            |s: Slot| enc_nat(s as nat),
        ) + seq![93]) + seq![93],
        CommandV::Resolution { ballot, slot_values } => seq![91] + enc_ballot(ballot)
            + seq![44] + (seq![91] + enc_items(slot_values, |p: (Slot, Seq<u8>)| enc_pair(p))
            + seq![93]) + seq![93],
        CommandV::Catchup { node, slots } => seq![91] + enc_nat(node as nat) + seq![44] + (
        seq![91] + enc_items(slots, |s: Slot| enc_nat(s as nat)) + seq![93]) + seq![93],
    }
}

/// The full encoding of a command.
pub open spec fn enc_command(c: CommandV) -> Seq<u8> {
    lit_head() + enc_tag(c) + lit_mid() + enc_payload(c) + seq![125]
}

/// Writes the decimal digits of `n`, most significant first.
#[verifier::loop_isolation(false)]
fn push_u64(out: &mut Vec<u8>, n: u64)
    ensures
        final(out)@ == old(out)@ + enc_nat(n as nat),
{
    let mut tmp: Vec<u8> = Vec::new();
    let mut m: u64 = n;
    let d0: u8 = (m % 10) as u8;
    tmp.push(48 + d0);
    m = m / 10;
    proof {
        assert(tmp@.reverse() =~= seq![(48 + (n as nat) % 10) as u8]);
        if m == 0 {
            assert(enc_nat(n as nat) == tmp@.reverse());
        } else {
            assert(enc_nat(n as nat) == enc_nat(m as nat) + tmp@.reverse());
        }
    }
    while m > 0
        invariant
            tmp@.len() >= 1,
            m > 0 ==> enc_nat(n as nat) == enc_nat(m as nat) + tmp@.reverse(),
            m == 0 ==> enc_nat(n as nat) == tmp@.reverse(),
        decreases m,
    {
        let ghost told = tmp@;
        let ghost mold = m as nat;
        let d: u8 = (m % 10) as u8;
        tmp.push(48 + d);
        m = m / 10;
        proof {
            assert(tmp@.reverse() =~= seq![(48 + mold % 10) as u8] + told.reverse());
            if mold >= 10 {
                assert(enc_nat(mold) == enc_nat(mold / 10).push((48 + mold % 10) as u8));
            }
            if m == 0 {
                assert(enc_nat(mold) =~= seq![(48 + mold % 10) as u8]);
                assert(enc_nat(n as nat) =~= tmp@.reverse());
            } else {
                assert(enc_nat(mold) =~= enc_nat(m as nat) + seq![(48 + mold % 10) as u8]);
                assert(enc_nat(n as nat) =~= enc_nat(m as nat) + tmp@.reverse());
            }
        }
    }
    let mut j: usize = tmp.len();
    while j > 0
        invariant
            j <= tmp@.len(),
            out@ == old(out)@ + tmp@.skip(j as int).reverse(),
        decreases j,
    {
        j = j - 1;
        out.push(tmp[j]);
        proof {
            assert(tmp@.skip(j as int) =~= seq![tmp@[j as int]] + tmp@.skip(j as int + 1));
            assert(tmp@.skip(j as int).reverse() =~= tmp@.skip(j as int + 1).reverse().push(
                tmp@[j as int],
            ));
            assert(out@ =~= old(out)@ + tmp@.skip(j as int).reverse());
        }
    }
    proof {
        assert(tmp@.skip(0) =~= tmp@);
    }
}

/// Writes a byte payload as an array of integers.
#[verifier::loop_isolation(false)]
fn push_bytes_arr(out: &mut Vec<u8>, v: &Vec<u8>)
    ensures
        final(out)@ == old(out)@ + enc_bytes_arr(v@),
{
    let ghost f = |x: u8| enc_nat(x as nat);
    out.push(91);
    let mut i: usize = 0;
    while i < v.len()
        invariant
            i <= v@.len(),
            out@ == old(out)@ + seq![91] + enc_items(v@.take(i as int), f),
        decreases v@.len() - i,
    {
        if i > 0 {
            out.push(44);
        }
        push_u64(out, v[i] as u64);
        proof {
            assert(v@.take(i as int + 1) =~= v@.take(i as int).push(v@[i as int]));
            lemma_enc_items_push(v@.take(i as int), v@[i as int], f);
            assert(out@ =~= old(out)@ + seq![91] + enc_items(v@.take(i as int + 1), f));
        }
        i = i + 1;
    }
    out.push(93);
    proof {
        assert(v@.take(v@.len() as int) =~= v@);
        assert(out@ =~= old(out)@ + enc_bytes_arr(v@));
    }
}

/// Writes a ballot as `[round,node]`.
fn push_ballot(out: &mut Vec<u8>, b: &Ballot)
    ensures
        final(out)@ == old(out)@ + enc_ballot(*b),
{
    out.push(91);
    push_u64(out, b.0 as u64);
    out.push(44);
    push_u64(out, b.1 as u64);
    out.push(93);
    proof {
        assert(out@ =~= old(out)@ + enc_ballot(*b));
    }
}

/// Writes a list of slots.
#[verifier::loop_isolation(false)]
fn push_slots(out: &mut Vec<u8>, v: &Vec<Slot>)
    ensures
        final(out)@ == old(out)@ + seq![91] + enc_items(v@, |s: Slot| enc_nat(s as nat))
            + seq![93],
{
    let ghost f = |s: Slot| enc_nat(s as nat);
    out.push(91);
    let mut i: usize = 0;
    while i < v.len()
        invariant
            i <= v@.len(),
            out@ == old(out)@ + seq![91] + enc_items(v@.take(i as int), f),
        decreases v@.len() - i,
    {
        if i > 0 {
            out.push(44);
        }
        push_u64(out, v[i]);
        proof {
            assert(v@.take(i as int + 1) =~= v@.take(i as int).push(v@[i as int]));
            lemma_enc_items_push(v@.take(i as int), v@[i as int], f);
            assert(out@ =~= old(out)@ + seq![91] + enc_items(v@.take(i as int + 1), f));
        }
        i = i + 1;
    }
    out.push(93);
    proof {
        assert(v@.take(v@.len() as int) =~= v@);
        assert(out@ =~= old(out)@ + seq![91] + enc_items(v@, f) + seq![93]);
    }
}

/// Writes a list of `[slot,value]` pairs.
#[verifier::loop_isolation(false)]
fn push_pairs(out: &mut Vec<u8>, v: &Vec<(Slot, bytes::Bytes)>)
    ensures
        final(out)@ == old(out)@ + seq![91] + enc_items(
            pairs_view(v@),
            |p: (Slot, Seq<u8>)| enc_pair(p),
        ) + seq![93],
{
    let ghost f = |p: (Slot, Seq<u8>)| enc_pair(p);
    out.push(91);
    let mut i: usize = 0;
    while i < v.len()
        invariant
            i <= v@.len(),
            out@ == old(out)@ + seq![91] + enc_items(pairs_view(v@).take(i as int), f),
        decreases v@.len() - i,
    {
        if i > 0 {
            out.push(44);
        }
        out.push(91);
        push_u64(out, v[i].0);
        out.push(44);
        let bytes = bytes_to_vec(&v[i].1);
        push_bytes_arr(out, &bytes);
        out.push(93);
        proof {
            assert(pairs_view(v@)[i as int] == (v@[i as int].0, bytes_view(v@[i as int].1)));
            assert(pairs_view(v@).take(i as int + 1) =~= pairs_view(v@).take(i as int).push(
                pairs_view(v@)[i as int],
            ));
            lemma_enc_items_push(pairs_view(v@).take(i as int), pairs_view(v@)[i as int], f);
            assert(out@ =~= old(out)@ + seq![91] + enc_items(
                pairs_view(v@).take(i as int + 1),
                f,
            ));
        }
        i = i + 1;
    }
    out.push(93);
    proof {
        assert(pairs_view(v@).take(pairs_view(v@).len() as int) =~= pairs_view(v@));
        assert(out@ =~= old(out)@ + seq![91] + enc_items(pairs_view(v@), f) + seq![93]);
    }
}

/// Writes a list of `[slot,ballot,value]` triples.
#[verifier::loop_isolation(false)]
fn push_triples(out: &mut Vec<u8>, v: &Vec<(Slot, Ballot, bytes::Bytes)>)
    ensures
        final(out)@ == old(out)@ + seq![91] + enc_items(
            triples_view(v@),
            |t: (Slot, Ballot, Seq<u8>)| enc_triple(t),
        ) + seq![93],
{
    let ghost f = |t: (Slot, Ballot, Seq<u8>)| enc_triple(t);
    out.push(91);
    let mut i: usize = 0;
    while i < v.len()
        invariant
            i <= v@.len(),
            out@ == old(out)@ + seq![91] + enc_items(triples_view(v@).take(i as int), f),
        decreases v@.len() - i,
    {
        if i > 0 {
            out.push(44);
        }
        out.push(91);
        push_u64(out, v[i].0);
        out.push(44);
        push_ballot(out, &v[i].1);
        out.push(44);
        let bytes = bytes_to_vec(&v[i].2);
        push_bytes_arr(out, &bytes);
        out.push(93);
        proof {
            assert(triples_view(v@)[i as int] == (
                v@[i as int].0,
                v@[i as int].1,
                bytes_view(v@[i as int].2),
            ));
            assert(triples_view(v@).take(i as int + 1) =~= triples_view(v@).take(i as int).push(
                triples_view(v@)[i as int],
            ));
            lemma_enc_items_push(triples_view(v@).take(i as int), triples_view(v@)[i as int], f);
            assert(out@ =~= old(out)@ + seq![91] + enc_items(
                triples_view(v@).take(i as int + 1),
                f,
            ));
        }
        i = i + 1;
    }
    out.push(93);
    proof {
        assert(triples_view(v@).take(triples_view(v@).len() as int) =~= triples_view(v@));
        assert(out@ =~= old(out)@ + seq![91] + enc_items(triples_view(v@), f) + seq![93]);
    }
}

/// Writes the head literal.
fn push_head(out: &mut Vec<u8>)
    ensures
        final(out)@ == old(out)@ + lit_head(),
{
    out.push(123);
    out.push(34);
    out.push(109);
    out.push(101);
    out.push(115);
    out.push(115);
    out.push(97);
    out.push(103);
    out.push(101);
    out.push(78);
    out.push(97);
    out.push(109);
    out.push(101);
    out.push(34);
    out.push(58);
    out.push(34);
    proof {
        assert(out@ =~= old(out)@ + lit_head());
    }
}

/// Writes the middle literal.
fn push_mid(out: &mut Vec<u8>)
    ensures
        final(out)@ == old(out)@ + lit_mid(),
{
    out.push(34);
    out.push(44);
    out.push(34);
    out.push(112);
    out.push(97);
    out.push(121);
    out.push(108);
    out.push(111);
    out.push(97);
    out.push(100);
    out.push(34);
    out.push(58);
    proof {
        assert(out@ =~= old(out)@ + lit_mid());
    }
}

/// Encodes a command as its tagged wire object.
#[verifier::rlimit(100)]
pub fn encode(cmd: &Command) -> (out: Vec<u8>)
    ensures
        out@ == enc_command(cmd@),
{
    let mut out: Vec<u8> = Vec::new();
    push_head(&mut out);
    match cmd {
        Command::Proposal { .. } => {
            out.push(80);
            out.push(114);
            out.push(111);
            out.push(112);
            out.push(111);
            out.push(115);
            out.push(97);
            out.push(108);
        },
        Command::Prepare { .. } => {
            out.push(80);
            out.push(114);
            out.push(101);
            out.push(112);
            out.push(97);
            out.push(114);
            out.push(101);
        },
        Command::Promise { .. } => {
            out.push(80);
            out.push(114);
            out.push(111);
            out.push(109);
            out.push(105);
            out.push(115);
            out.push(101);
        },
        Command::Accept { .. } => {
            out.push(65);
            out.push(99);
            out.push(99);
            out.push(101);
            out.push(112);
            out.push(116);
        },
        Command::Reject { .. } => {
            out.push(82);
            out.push(101);
            out.push(106);
            out.push(101);
            out.push(99);
            out.push(116);
        },
        Command::Accepted { .. } => {
            out.push(65);
            out.push(99);
            out.push(99);
            out.push(101);
            out.push(112);
            out.push(116);
            out.push(101);
            out.push(100);
        },
        Command::Resolution { .. } => {
            out.push(82);
            out.push(101);
            out.push(115);
            out.push(111);
            out.push(108);
            out.push(117);
            out.push(116);
            out.push(105);
            out.push(111);
            out.push(110);
        },
        Command::Catchup { .. } => {
            out.push(67);
            out.push(97);
            out.push(116);
            out.push(99);
            out.push(104);
            out.push(117);
            out.push(112);
        },
    }
    proof {
        assert(out@ =~= lit_head() + enc_tag(cmd@));
    }
    push_mid(&mut out);
    match cmd {
        Command::Proposal { payload } => {
            let bytes = bytes_to_vec(payload);
            push_bytes_arr(&mut out, &bytes);
        },
        Command::Prepare { payload } => {
            push_ballot(&mut out, payload);
        },
        Command::Promise { payload } => {
            out.push(91);
            push_u64(&mut out, payload.0 as u64);
            out.push(44);
            push_ballot(&mut out, &payload.1);
            out.push(44);
            push_triples(&mut out, &payload.2);
            out.push(93);
        },
        Command::Accept { payload } => {
            out.push(91);
            push_ballot(&mut out, &payload.0);
            out.push(44);
            push_pairs(&mut out, &payload.1);
            out.push(93);
        },
        Command::Reject { payload } => {
            out.push(91);
            push_u64(&mut out, payload.0 as u64);
            out.push(44);
            push_ballot(&mut out, &payload.1);
            out.push(44);
            push_ballot(&mut out, &payload.2);
            out.push(93);
        },
        Command::Accepted { payload } => {
            out.push(91);
            push_u64(&mut out, payload.0 as u64);
            out.push(44);
            push_ballot(&mut out, &payload.1);
            out.push(44);
            push_slots(&mut out, &payload.2);
            out.push(93);
        },
        Command::Resolution { payload } => {
            out.push(91);
            push_ballot(&mut out, &payload.0);
            out.push(44);
            push_pairs(&mut out, &payload.1);
            out.push(93);
        },
        Command::Catchup { payload } => {
            out.push(91);
            push_u64(&mut out, payload.0 as u64);
            out.push(44);
            push_slots(&mut out, &payload.1);
            out.push(93);
        },
    }
    out.push(125);
    proof {
        assert(out@ =~= enc_command(cmd@));
    }
    out
}


/// Compares two byte vectors for equality of contents.
fn vec_u8_eq(a: &Vec<u8>, b: &Vec<u8>) -> (r: bool)
    ensures
        r == (a@ == b@),
{
    if a.len() != b.len() {
        proof {
            assert(a@ != b@);
        }
        return false;
    }
    let mut i: usize = 0;
    while i < a.len()
        invariant
            i <= a@.len(),
            a@.len() == b@.len(),
            forall|k: int| 0 <= k < i ==> a@[k] == b@[k],
        decreases a@.len() - i,
    {
        if a[i] != b[i] {
            proof {
                assert(a@[i as int] != b@[i as int]);
            }
            return false;
        }
        i = i + 1;
    }
    proof {
        assert(a@ =~= b@);
    }
    true
}

/// Consumes one expected byte.
fn p_byte(data: &Vec<u8>, i: usize, b: u8) -> (r: Option<usize>)
    ensures
        r matches Some(j) ==> i < j <= data@.len(),
{
    if i < data.len() && data[i] == b {
        Some(i + 1)
    } else {
        None
    }
}

/// Consumes an expected literal.
fn p_lit(data: &Vec<u8>, i: usize, pat: &Vec<u8>) -> (r: Option<usize>)
    ensures
        r matches Some(j) ==> i <= j <= data@.len(),
{
    let mut k: usize = 0;
    let mut j: usize = i;
    if i > data.len() {
        return None;
    }
    while k < pat.len()
        invariant
            i <= j <= data@.len(),
        decreases pat@.len() - k,
    {
        if j >= data.len() || data[j] != pat[k] {
            return None;
        }
        j = j + 1;
        k = k + 1;
    }
    Some(j)
}

/// Consumes a decimal number; rejects leading zeros and overflow.
fn p_u64(data: &Vec<u8>, i: usize) -> (r: Option<(u64, usize)>)
    ensures
        r matches Some(p) ==> i < p.1 <= data@.len(),
{
    if i >= data.len() {
        return None;
    }
    let first = data[i];
    if !(48 <= first && first <= 57) {
        return None;
    }
    let mut acc: u64 = (first - 48) as u64;
    let mut j: usize = i + 1;
    if first == 48 {
        // a canonical number never has a leading zero
        return Some((0, j));
    }
    while j < data.len() && 48 <= data[j] && data[j] <= 57
        invariant
            i < j <= data@.len(),
        decreases data@.len() - j,
    {
        let d = (data[j] - 48) as u64;
        if acc > (u64::MAX - d) / 10 {
            return None;
        }
        acc = acc * 10 + d;
        j = j + 1;
    }
    Some((acc, j))
}

/// Consumes a decimal number that must fit in 32 bits.
fn p_u32(data: &Vec<u8>, i: usize) -> (r: Option<(u32, usize)>)
    ensures
        r matches Some(p) ==> i < p.1 <= data@.len(),
{
    match p_u64(data, i) {
        Some((v, j)) => {
            if v <= u32::MAX as u64 {
                Some((v as u32, j))
            } else {
                None
            }
        },
        None => None,
    }
}

/// Consumes a `[round,node]` ballot.
fn p_ballot(data: &Vec<u8>, i: usize) -> (r: Option<(Ballot, usize)>)
    ensures
        r matches Some(p) ==> i < p.1 <= data@.len(),
{
    let j = match p_byte(data, i, 91) {
        Some(j) => j,
        None => {
            return None;
        },
    };
    let (round, j) = match p_u32(data, j) {
        Some(p) => p,
        None => {
            return None;
        },
    };
    let j = match p_byte(data, j, 44) {
        Some(j) => j,
        None => {
            return None;
        },
    };
    let (node, j) = match p_u32(data, j) {
        Some(p) => p,
        None => {
            return None;
        },
    };
    let j = match p_byte(data, j, 93) {
        Some(j) => j,
        None => {
            return None;
        },
    };
    Some((Ballot(round, node), j))
}

/// Consumes an array of byte values.
fn p_bytes_arr(data: &Vec<u8>, i: usize) -> (r: Option<(Vec<u8>, usize)>)
    ensures
        r matches Some(p) ==> i < p.1 <= data@.len(),
{
    let mut j = match p_byte(data, i, 91) {
        Some(j) => j,
        None => {
            return None;
        },
    };
    let mut out: Vec<u8> = Vec::new();
    match p_byte(data, j, 93) {
        Some(j2) => {
            return Some((out, j2));
        },
        None => {},
    }
    loop
        invariant
            i < j <= data@.len(),
        decreases data@.len() - j,
    {
        let (v, j2) = match p_u64(data, j) {
            Some(p) => p,
            None => {
                return None;
            },
        };
        if v > u8::MAX as u64 {
            return None;
        }
        out.push(v as u8);
        j = j2;
        match p_byte(data, j, 93) {
            Some(j3) => {
                return Some((out, j3));
            },
            None => {},
        }
        j = match p_byte(data, j, 44) {
            Some(j3) => j3,
            None => {
                return None;
            },
        };
    }
}

/// Consumes an array of slot numbers.
fn p_slots(data: &Vec<u8>, i: usize) -> (r: Option<(Vec<Slot>, usize)>)
    ensures
        r matches Some(p) ==> i < p.1 <= data@.len(),
{
    let mut j = match p_byte(data, i, 91) {
        Some(j) => j,
        None => {
            return None;
        },
    };
    let mut out: Vec<Slot> = Vec::new();
    match p_byte(data, j, 93) {
        Some(j2) => {
            return Some((out, j2));
        },
        None => {},
    }
    loop
        invariant
            i < j <= data@.len(),
        decreases data@.len() - j,
    {
        let (v, j2) = match p_u64(data, j) {
            Some(p) => p,
            None => {
                return None;
            },
        };
        out.push(v);
        j = j2;
        match p_byte(data, j, 93) {
            Some(j3) => {
                return Some((out, j3));
            },
            None => {},
        }
        j = match p_byte(data, j, 44) {
            Some(j3) => j3,
            None => {
                return None;
            },
        };
    }
}

/// Consumes a `[slot,value]` pair.
fn p_pair(data: &Vec<u8>, i: usize) -> (r: Option<((Slot, bytes::Bytes), usize)>)
    ensures
        r matches Some(p) ==> i < p.1 <= data@.len(),
{
    let j = match p_byte(data, i, 91) {
        Some(j) => j,
        None => {
            return None;
        },
    };
    let (s, j) = match p_u64(data, j) {
        Some(p) => p,
        None => {
            return None;
        },
    };
    let j = match p_byte(data, j, 44) {
        Some(j) => j,
        None => {
            return None;
        },
    };
    let (bytes, j) = match p_bytes_arr(data, j) {
        Some(p) => p,
        None => {
            return None;
        },
    };
    let j = match p_byte(data, j, 93) {
        Some(j) => j,
        None => {
            return None;
        },
    };
    Some(((s, bytes_from_vec(bytes)), j))
}

/// Consumes an array of `[slot,value]` pairs.
fn p_pairs(data: &Vec<u8>, i: usize) -> (r: Option<(Vec<(Slot, bytes::Bytes)>, usize)>)
    ensures
        r matches Some(p) ==> i < p.1 <= data@.len(),
{
    let mut j = match p_byte(data, i, 91) {
        Some(j) => j,
        None => {
            return None;
        },
    };
    let mut out: Vec<(Slot, bytes::Bytes)> = Vec::new();
    match p_byte(data, j, 93) {
        Some(j2) => {
            return Some((out, j2));
        },
        None => {},
    }
    loop
        invariant
            i < j <= data@.len(),
        decreases data@.len() - j,
    {
        let (p, j2) = match p_pair(data, j) {
            Some(p) => p,
            None => {
                return None;
            },
        };
        out.push(p);
        j = j2;
        match p_byte(data, j, 93) {
            Some(j3) => {
                return Some((out, j3));
            },
            None => {},
        }
        j = match p_byte(data, j, 44) {
            Some(j3) => j3,
            None => {
                return None;
            },
        };
    }
}

/// Consumes a `[slot,ballot,value]` triple.
fn p_triple(data: &Vec<u8>, i: usize) -> (r: Option<((Slot, Ballot, bytes::Bytes), usize)>)
    ensures
        r matches Some(p) ==> i < p.1 <= data@.len(),
{
    let j = match p_byte(data, i, 91) {
        Some(j) => j,
        None => {
            return None;
        },
    };
    let (s, j) = match p_u64(data, j) {
        Some(p) => p,
        None => {
            return None;
        },
    };
    let j = match p_byte(data, j, 44) {
        Some(j) => j,
        None => {
            return None;
        },
    };
    let (b, j) = match p_ballot(data, j) {
        Some(p) => p,
        None => {
            return None;
        },
    };
    let j = match p_byte(data, j, 44) {
        Some(j) => j,
        None => {
            return None;
        },
    };
    let (bytes, j) = match p_bytes_arr(data, j) {
        Some(p) => p,
        None => {
            return None;
        },
    };
    let j = match p_byte(data, j, 93) {
        Some(j) => j,
        None => {
            return None;
        },
    };
    Some(((s, b, bytes_from_vec(bytes)), j))
}

/// Consumes an array of `[slot,ballot,value]` triples.
fn p_triples(data: &Vec<u8>, i: usize) -> (r: Option<(Vec<(Slot, Ballot, bytes::Bytes)>, usize)>)
    ensures
        r matches Some(p) ==> i < p.1 <= data@.len(),
{
    let mut j = match p_byte(data, i, 91) {
        Some(j) => j,
        None => {
            return None;
        },
    };
    let mut out: Vec<(Slot, Ballot, bytes::Bytes)> = Vec::new();
    match p_byte(data, j, 93) {
        Some(j2) => {
            return Some((out, j2));
        },
        None => {},
    }
    loop
        invariant
            i < j <= data@.len(),
        decreases data@.len() - j,
    {
        let (t, j2) = match p_triple(data, j) {
            Some(p) => p,
            None => {
                return None;
            },
        };
        out.push(t);
        j = j2;
        match p_byte(data, j, 93) {
            Some(j3) => {
                return Some((out, j3));
            },
            None => {},
        }
        j = match p_byte(data, j, 44) {
            Some(j3) => j3,
            None => {
                return None;
            },
        };
    }
}

/// The head literal as bytes.
fn head_pat() -> Vec<u8> {
    let mut v: Vec<u8> = Vec::new();
    v.push(123);
    v.push(34);
    v.push(109);
    v.push(101);
    v.push(115);
    v.push(115);
    v.push(97);
    v.push(103);
    v.push(101);
    v.push(78);
    v.push(97);
    v.push(109);
    v.push(101);
    v.push(34);
    v.push(58);
    v.push(34);
    v
}

/// The middle literal as bytes.
fn mid_pat() -> Vec<u8> {
    let mut v: Vec<u8> = Vec::new();
    v.push(34);
    v.push(44);
    v.push(34);
    v.push(112);
    v.push(97);
    v.push(121);
    v.push(108);
    v.push(111);
    v.push(97);
    v.push(100);
    v.push(34);
    v.push(58);
    v
}

/// Parses a wire object into a command, shape-wise; `decode` holds the
/// result to the exact encoding.
fn parse_command(data: &Vec<u8>) -> Option<Command> {
    let head = head_pat();
    let j = match p_lit(data, 0, &head) {
        Some(j) => j,
        None => {
            return None;
        },
    };
    // collect the tag up to the closing quote
    let mut tag: Vec<u8> = Vec::new();
    let mut k: usize = j;
    while k < data.len() && data[k] != 34
        invariant
            j <= k <= data@.len(),
        decreases data@.len() - k,
    {
        tag.push(data[k]);
        k = k + 1;
    }
    let mid = mid_pat();
    let j = match p_lit(data, k, &mid) {
        Some(j) => j,
        None => {
            return None;
        },
    };
    let n = data.len();
    // dispatch on the tag
    if tag.len() == 8 && tag[0] == 80 && tag[3] == 112 {
        // Proposal
        let (bytes, j) = match p_bytes_arr(data, j) {
            Some(p) => p,
            None => {
                return None;
            },
        };
        let j = match p_byte(data, j, 125) {
            Some(j) => j,
            None => {
                return None;
            },
        };
        if j == n {
            return Some(Command::Proposal { payload: bytes_from_vec(bytes) });
        }
        return None;
    }
    if tag.len() == 7 && tag[0] == 80 && tag[2] == 101 {
        // Prepare
        let (b, j) = match p_ballot(data, j) {
            Some(p) => p,
            None => {
                return None;
            },
        };
        let j = match p_byte(data, j, 125) {
            Some(j) => j,
            None => {
                return None;
            },
        };
        if j == n {
            return Some(Command::Prepare { payload: b });
        }
        return None;
    }
    if tag.len() == 7 && tag[0] == 80 && tag[2] == 111 {
        // Promise
        let j = match p_byte(data, j, 91) {
            Some(j) => j,
            None => {
                return None;
            },
        };
        let (node, j) = match p_u32(data, j) {
            Some(p) => p,
            None => {
                return None;
            },
        };
        let j = match p_byte(data, j, 44) {
            Some(j) => j,
            None => {
                return None;
            },
        };
        let (b, j) = match p_ballot(data, j) {
            Some(p) => p,
            None => {
                return None;
            },
        };
        let j = match p_byte(data, j, 44) {
            Some(j) => j,
            None => {
                return None;
            },
        };
        let (ts, j) = match p_triples(data, j) {
            Some(p) => p,
            None => {
                return None;
            },
        };
        let j = match p_byte(data, j, 93) {
            Some(j) => j,
            None => {
                return None;
            },
        };
        let j = match p_byte(data, j, 125) {
            Some(j) => j,
            None => {
                return None;
            },
        };
        if j == n {
            return Some(Command::Promise { payload: (node, b, ts) });
        }
        return None;
    }
    if tag.len() == 6 && tag[0] == 65 {
        // Accept
        let j = match p_byte(data, j, 91) {
            Some(j) => j,
            None => {
                return None;
            },
        };
        let (b, j) = match p_ballot(data, j) {
            Some(p) => p,
            None => {
                return None;
            },
        };
        let j = match p_byte(data, j, 44) {
            Some(j) => j,
            None => {
                return None;
            },
        };
        let (ps, j) = match p_pairs(data, j) {
            Some(p) => p,
            None => {
                return None;
            },
        };
        let j = match p_byte(data, j, 93) {
            Some(j) => j,
            None => {
                return None;
            },
        };
        let j = match p_byte(data, j, 125) {
            Some(j) => j,
            None => {
                return None;
            },
        };
        if j == n {
            return Some(Command::Accept { payload: (b, ps) });
        }
        return None;
    }
    if tag.len() == 6 && tag[0] == 82 {
        // Reject
        let j = match p_byte(data, j, 91) {
            Some(j) => j,
            None => {
                return None;
            },
        };
        let (node, j) = match p_u32(data, j) {
            Some(p) => p,
            None => {
                return None;
            },
        };
        let j = match p_byte(data, j, 44) {
            Some(j) => j,
            None => {
                return None;
            },
        };
        let (b1, j) = match p_ballot(data, j) {
            Some(p) => p,
            None => {
                return None;
            },
        };
        let j = match p_byte(data, j, 44) {
            Some(j) => j,
            None => {
                return None;
            },
        };
        let (b2, j) = match p_ballot(data, j) {
            Some(p) => p,
            None => {
                return None;
            },
        };
        let j = match p_byte(data, j, 93) {
            Some(j) => j,
            None => {
                return None;
            },
        };
        let j = match p_byte(data, j, 125) {
            Some(j) => j,
            None => {
                return None;
            },
        };
        if j == n {
            return Some(Command::Reject { payload: (node, b1, b2) });
        }
        return None;
    }
    if tag.len() == 8 && tag[0] == 65 {
        // Accepted
        let j = match p_byte(data, j, 91) {
            Some(j) => j,
            None => {
                return None;
            },
        };
        let (node, j) = match p_u32(data, j) {
            Some(p) => p,
            None => {
                return None;
            },
        };
        let j = match p_byte(data, j, 44) {
            Some(j) => j,
            None => {
                return None;
            },
        };
        let (b, j) = match p_ballot(data, j) {
            Some(p) => p,
            None => {
                return None;
            },
        };
        let j = match p_byte(data, j, 44) {
            Some(j) => j,
            None => {
                return None;
            },
        };
        let (ss, j) = match p_slots(data, j) {
            Some(p) => p,
            None => {
                return None;
            },
        };
        let j = match p_byte(data, j, 93) {
            Some(j) => j,
            None => {
                return None;
            },
        };
        let j = match p_byte(data, j, 125) {
            Some(j) => j,
            None => {
                return None;
            },
        };
        if j == n {
            return Some(Command::Accepted { payload: (node, b, ss) });
        }
        return None;
    }
    if tag.len() == 10 && tag[0] == 82 {
        // Resolution
        let j = match p_byte(data, j, 91) {
            Some(j) => j,
            None => {
                return None;
            },
        };
        let (b, j) = match p_ballot(data, j) {
            Some(p) => p,
            None => {
                return None;
            },
        };
        let j = match p_byte(data, j, 44) {
            Some(j) => j,
            None => {
                return None;
            },
        };
        let (ps, j) = match p_pairs(data, j) {
            Some(p) => p,
            None => {
                return None;
            },
        };
        let j = match p_byte(data, j, 93) {
            Some(j) => j,
            None => {
                return None;
            },
        };
        let j = match p_byte(data, j, 125) {
            Some(j) => j,
            None => {
                return None;
            },
        };
        if j == n {
            return Some(Command::Resolution { payload: (b, ps) });
        }
        return None;
    }
    if tag.len() == 7 && tag[0] == 67 {
        // Catchup
        let j = match p_byte(data, j, 91) {
            Some(j) => j,
            None => {
                return None;
            },
        };
        let (node, j) = match p_u32(data, j) {
            Some(p) => p,
            None => {
                return None;
            },
        };
        let j = match p_byte(data, j, 44) {
            Some(j) => j,
            None => {
                return None;
            },
        };
        let (ss, j) = match p_slots(data, j) {
            Some(p) => p,
            None => {
                return None;
            },
        };
        let j = match p_byte(data, j, 93) {
            Some(j) => j,
            None => {
                return None;
            },
        };
        let j = match p_byte(data, j, 125) {
            Some(j) => j,
            None => {
                return None;
            },
        };
        if j == n {
            return Some(Command::Catchup { payload: (node, ss) });
        }
        return None;
    }
    None
}

/// Decodes a wire object. A decode succeeds only on exactly the bytes
/// that `encode` produces for the returned command: any successful decode
/// is exact, so no byte string decodes to a wrong command.
pub fn decode(data: &Vec<u8>) -> (r: Option<Command>)
    ensures
        r matches Some(c) ==> data@ == enc_command(c@),
{
    match parse_command(data) {
        Some(c) => {
            let again = encode(&c);
            if vec_u8_eq(&again, data) {
                Some(c)
            } else {
                None
            }
        },
        None => None,
    }
}

} // verus!
