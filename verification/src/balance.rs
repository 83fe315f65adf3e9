//! Balanced buses: where, on every bus, every message is received as often
//! as it is sent, the signed sum of all terms of the permutation argument is
//! zero.

use vstd::prelude::*;
use vstd::arithmetic::div_mod::*;
use crate::extension::{
    ext_add, ext_canonical, ext_pow, ext_scale, ext_zero, inverse_or_zero, Ext,
};
use crate::bus::total_sum;
use crate::extension::{ef_seq, Ef};
use crate::field::{modulus, Fe};
use crate::interaction::{combine_fields, Interaction, InteractionType, VirtualPairCol};
use crate::matrix::Matrix;
use crate::permutation::{
    add_term, bus_tag, is_permutation_trace, is_reciprocal, message_rlc, row_sum, sum_above,
    trace_height, trace_row,
};

verus! {

/// One message on one row of one table: whether it is sent or received,
/// its bus, the values of its fields, and how many times it counts.
pub struct Event {
    pub kind: InteractionType,
    pub bus: usize,
    pub message: Seq<int>,
    pub mult: int,
}

/// The first `n` values of a message, each scaled by the matching power of
/// `beta` and summed.
pub open spec fn combine_values(values: Seq<int>, beta: Ext, n: nat) -> Ext
    decreases n,
{
    if n == 0 {
        ext_zero()
    } else {
        ext_add(
            combine_values(values, beta, (n - 1) as nat),
            ext_scale(ext_pow(beta, (n - 1) as nat), values[n - 1]),
        )
    }
}

/// The random linear combination of a message on a bus.
pub open spec fn event_rlc(bus: usize, message: Seq<int>, beta: Ext, gamma: Ext) -> Ext {
    ext_add(combine_values(message, beta, message.len()), bus_tag(gamma, bus as nat))
}

/// The reciprocal that stands for an event in the permutation trace.
pub open spec fn event_reciprocal(e: Event, beta: Ext, gamma: Ext) -> Ext {
    inverse_or_zero(event_rlc(e.bus, e.message, beta, gamma))
}

/// `start` plus the terms of the first `n` events, each added for a send
/// and subtracted for a receive.
pub open spec fn signed_sum(start: Ext, events: Seq<Event>, beta: Ext, gamma: Ext, n: nat) -> Ext
    decreases n,
{
    if n == 0 {
        start
    } else {
        add_term(
            signed_sum(start, events, beta, gamma, (n - 1) as nat),
            events[n - 1].kind,
            event_reciprocal(events[n - 1], beta, gamma),
            events[n - 1].mult,
        )
    }
}

/// The multiplicity of an event, counted negatively for a receive.
pub open spec fn signed(e: Event) -> int {
    match e.kind {
        InteractionType::Send => e.mult,
        InteractionType::Receive => -e.mult,
    }
}

/// Whether an event carries the given message on the given bus.
pub open spec fn carries(e: Event, bus: usize, message: Seq<int>) -> bool {
    e.bus == bus && e.message == message
}

/// How many more times than it is received the message is sent on the bus
/// by the first `n` events.
pub open spec fn net(events: Seq<Event>, bus: usize, message: Seq<int>, n: nat) -> int
    decreases n,
{
    if n == 0 {
        0
    } else if carries(events[n - 1], bus, message) {
        net(events, bus, message, (n - 1) as nat) + signed(events[n - 1])
    } else {
        net(events, bus, message, (n - 1) as nat)
    }
}

/// Whether, on every bus, every message is received as often as it is
/// sent, counted in the field.
pub open spec fn balanced(events: Seq<Event>) -> bool {
    forall|bus: usize, message: Seq<int>| #[trigger]
        net(events, bus, message, events.len()) % modulus() == 0
}

/// Whether two integers stand for the same element of the field.
pub open spec fn congruent(a: int, b: int) -> bool {
    (a - b) % modulus() == 0
}

/// Whether two elements have congruent coefficients.
pub open spec fn ext_congruent(a: Ext, b: Ext) -> bool {
    &&& congruent(a.c0, b.c0)
    &&& congruent(a.c1, b.c1)
    &&& congruent(a.c2, b.c2)
    &&& congruent(a.c3, b.c3)
}

/// An integer and its residue stand for the same element.
pub proof fn lemma_congruent_mod(x: int)
    ensures
        congruent(x % modulus(), x),
{
    let p = modulus();
    lemma_fundamental_div_mod(x, p);
    assert(x % p - x == p * (-(x / p)) + 0) by (nonlinear_arith)
        requires
            x == p * (x / p) + x % p,
    ;
    lemma_mod_multiples_vanish(-(x / p), 0, p);
    lemma_small_mod(0, p as nat);
}

/// Sums and differences of congruent integers are congruent.
pub proof fn lemma_congruent_sum(a: int, b: int, c: int, d: int)
    requires
        congruent(a, b),
        congruent(c, d),
    ensures
        congruent(a + c, b + d),
        congruent(a - c, b - d),
{
    let p = modulus();
    lemma_fundamental_div_mod(a - b, p);
    lemma_fundamental_div_mod(c - d, p);
    let k = (a - b) / p + (c - d) / p;
    assert((a + c) - (b + d) == p * k + 0) by (nonlinear_arith)
        requires
            a - b == p * ((a - b) / p),
            c - d == p * ((c - d) / p),
            k == (a - b) / p + (c - d) / p,
    ;
    lemma_mod_multiples_vanish(k, 0, p);
    let j = (a - b) / p - (c - d) / p;
    assert((a - c) - (b - d) == p * j + 0) by (nonlinear_arith)
        requires
            a - b == p * ((a - b) / p),
            c - d == p * ((c - d) / p),
            j == (a - b) / p - (c - d) / p,
    ;
    lemma_mod_multiples_vanish(j, 0, p);
    lemma_small_mod(0, p as nat);
}

/// Congruence can be chained, and read in either direction.
pub proof fn lemma_congruent_chain(a: int, b: int, c: int)
    requires
        congruent(a, b),
        congruent(b, c),
    ensures
        congruent(a, c),
        congruent(b, a),
{
    lemma_congruent_sum(a, b, b, c);
    assert(a + b - (b + c) == a - c);
    lemma_congruent_sum(b, b, a, b);
    assert((b - b) % modulus() == 0) by {
        lemma_small_mod(0, modulus() as nat);
    }
}

/// A multiple of a multiple of the modulus is one.
pub proof fn lemma_congruent_product(k: int, a: int)
    requires
        congruent(a, 0),
    ensures
        congruent(k * a, 0),
{
    let p = modulus();
    lemma_fundamental_div_mod(a, p);
    let q = k * (a / p);
    assert(k * a == p * q + 0) by (nonlinear_arith)
        requires
            a == p * (a / p),
            q == k * (a / p),
    ;
    lemma_mod_multiples_vanish(q, 0, p);
    lemma_small_mod(0, p as nat);
}

/// Two canonical integers that are congruent are the same.
pub proof fn lemma_congruent_canonical(a: int, b: int)
    requires
        congruent(a, b),
        0 <= a < modulus(),
        0 <= b < modulus(),
    ensures
        a == b,
{
    let p = modulus();
    lemma_fundamental_div_mod(a - b, p);
    let q = (a - b) / p;
    assert(a - b == p * q);
    assert(q == 0) by (nonlinear_arith)
        requires
            a - b == p * q,
            -p < a - b < p,
            p > 0,
    ;
}

/// The signed sum of the terms of the first `n` events, in the integers:
/// every coefficient of every reciprocal times the signed multiplicity.
pub open spec fn raw_sum(events: Seq<Event>, beta: Ext, gamma: Ext, n: nat) -> Ext
    decreases n,
{
    if n == 0 {
        ext_zero()
    } else {
        let before = raw_sum(events, beta, gamma, (n - 1) as nat);
        let r = event_reciprocal(events[n - 1], beta, gamma);
        let s = signed(events[n - 1]);
        Ext {
            c0: before.c0 + s * r.c0,
            c1: before.c1 + s * r.c1,
            c2: before.c2 + s * r.c2,
            c3: before.c3 + s * r.c3,
        }
    }
}

/// One more term keeps a sum in the field congruent to the sum in the
/// integers.
proof fn lemma_term_congruent(acc: int, raw: int, r: int, mult: int)
    requires
        congruent(acc, raw),
    ensures
        congruent((acc + (r * mult) % modulus()) % modulus(), raw + mult * r),
        congruent((acc - (r * mult) % modulus()) % modulus(), raw + (-mult) * r),
{
    let p = modulus();
    let t = (r * mult) % p;
    lemma_congruent_mod(r * mult);
    assert(r * mult == mult * r) by (nonlinear_arith);
    assert((-mult) * r == -(mult * r)) by (nonlinear_arith);
    lemma_congruent_sum(acc, raw, t, mult * r);
    lemma_congruent_mod(acc + t);
    lemma_congruent_chain((acc + t) % p, acc + t, raw + mult * r);
    lemma_congruent_mod(acc - t);
    lemma_congruent_chain((acc - t) % p, acc - t, raw - mult * r);
}

/// The sum of two elements in the integers, coefficient by coefficient.
pub open spec fn raw_add(a: Ext, b: Ext) -> Ext {
    Ext { c0: a.c0 + b.c0, c1: a.c1 + b.c1, c2: a.c2 + b.c2, c3: a.c3 + b.c3 }
}

/// The signed sum in the field is congruent to what it started with plus
/// the signed sum in the integers.
pub proof fn lemma_signed_sum_congruent(
    start: Ext,
    events: Seq<Event>,
    beta: Ext,
    gamma: Ext,
    n: nat,
)
    ensures
        ext_congruent(
            signed_sum(start, events, beta, gamma, n),
            raw_add(start, raw_sum(events, beta, gamma, n)),
        ),
    decreases n,
{
    if n == 0 {
        lemma_small_mod(0, modulus() as nat);
    } else {
        lemma_signed_sum_congruent(start, events, beta, gamma, (n - 1) as nat);
        let acc = signed_sum(start, events, beta, gamma, (n - 1) as nat);
        let raw = raw_add(start, raw_sum(events, beta, gamma, (n - 1) as nat));
        let r = event_reciprocal(events[n - 1], beta, gamma);
        let mult = events[n - 1].mult;
        lemma_term_congruent(acc.c0, raw.c0, r.c0, mult);
        lemma_term_congruent(acc.c1, raw.c1, r.c1, mult);
        lemma_term_congruent(acc.c2, raw.c2, r.c2, mult);
        lemma_term_congruent(acc.c3, raw.c3, r.c3, mult);
    }
}

/// The signed sum is canonical if what it started with is.
pub proof fn lemma_signed_sum_canonical(
    start: Ext,
    events: Seq<Event>,
    beta: Ext,
    gamma: Ext,
    n: nat,
)
    requires
        ext_canonical(start),
    ensures
        ext_canonical(signed_sum(start, events, beta, gamma, n)),
    decreases n,
{
    if n > 0 {
        lemma_signed_sum_canonical(start, events, beta, gamma, (n - 1) as nat);
    }
}

/// The first `n` events without those that carry the message on the bus.
pub open spec fn without(events: Seq<Event>, bus: usize, message: Seq<int>, n: nat) -> Seq<Event>
    decreases n,
{
    if n == 0 {
        Seq::empty()
    } else if carries(events[n - 1], bus, message) {
        without(events, bus, message, (n - 1) as nat)
    } else {
        without(events, bus, message, (n - 1) as nat).push(events[n - 1])
    }
}

/// The sums over the first `n` events do not read the events after them.
proof fn lemma_prefix(
    a: Seq<Event>,
    b: Seq<Event>,
    bus: usize,
    message: Seq<int>,
    beta: Ext,
    gamma: Ext,
    n: nat,
)
    requires
        n <= a.len(),
        n <= b.len(),
        forall|i: int| 0 <= i < n ==> a[i] == b[i],
    ensures
        raw_sum(a, beta, gamma, n) == raw_sum(b, beta, gamma, n),
        net(a, bus, message, n) == net(b, bus, message, n),
    decreases n,
{
    if n > 0 {
        lemma_prefix(a, b, bus, message, beta, gamma, (n - 1) as nat);
    }
}

/// Leaving out the events that carry a message leaves out nothing else,
/// and makes the list shorter if there is such an event.
proof fn lemma_without(
    events: Seq<Event>,
    bus: usize,
    message: Seq<int>,
    other_bus: usize,
    other_message: Seq<int>,
    n: nat,
)
    requires
        n <= events.len(),
    ensures
        without(events, bus, message, n).len() <= n,
        (exists|i: int| 0 <= i < n && carries(events[i], bus, message)) ==> without(
            events,
            bus,
            message,
            n,
        ).len() < n,
        net(
            without(events, bus, message, n),
            other_bus,
            other_message,
            without(events, bus, message, n).len(),
        ) == (if other_bus == bus && other_message == message {
            0
        } else {
            net(events, other_bus, other_message, n)
        }),
    decreases n,
{
    if n > 0 {
        let rest = without(events, bus, message, (n - 1) as nat);
        lemma_without(events, bus, message, other_bus, other_message, (n - 1) as nat);
        if carries(events[n - 1], bus, message) {
            if exists|i: int| 0 <= i < n - 1 && carries(events[i], bus, message) {
            }
        } else {
            let all = rest.push(events[n - 1]);
            lemma_prefix(rest, all, other_bus, other_message, ext_zero(), ext_zero(), rest.len());
            if exists|i: int| 0 <= i < n && carries(events[i], bus, message) {
                let i = choose|i: int| 0 <= i < n && carries(events[i], bus, message);
                assert(0 <= i < n - 1 && carries(events[i], bus, message));
            }
        }
    }
}

/// The sum in the integers splits into the part of the events that carry a
/// message, which is their net count times the reciprocal of the message,
/// and the sum of the other events.
proof fn lemma_raw_split(
    events: Seq<Event>,
    bus: usize,
    message: Seq<int>,
    beta: Ext,
    gamma: Ext,
    n: nat,
)
    requires
        n <= events.len(),
    ensures
        ({
            let r = inverse_or_zero(event_rlc(bus, message, beta, gamma));
            let k = net(events, bus, message, n);
            let rest = without(events, bus, message, n);
            let others = raw_sum(rest, beta, gamma, rest.len());
            let all = raw_sum(events, beta, gamma, n);
            &&& all.c0 == k * r.c0 + others.c0
            &&& all.c1 == k * r.c1 + others.c1
            &&& all.c2 == k * r.c2 + others.c2
            &&& all.c3 == k * r.c3 + others.c3
        }),
    decreases n,
{
    if n > 0 {
        lemma_raw_split(events, bus, message, beta, gamma, (n - 1) as nat);
        let r = inverse_or_zero(event_rlc(bus, message, beta, gamma));
        let k = net(events, bus, message, (n - 1) as nat);
        let e = events[n - 1];
        let s = signed(e);
        let rest = without(events, bus, message, (n - 1) as nat);
        if carries(e, bus, message) {
            assert(event_reciprocal(e, beta, gamma) == r);
            assert((k + s) * r.c0 == k * r.c0 + s * r.c0) by (nonlinear_arith);
            assert((k + s) * r.c1 == k * r.c1 + s * r.c1) by (nonlinear_arith);
            assert((k + s) * r.c2 == k * r.c2 + s * r.c2) by (nonlinear_arith);
            assert((k + s) * r.c3 == k * r.c3 + s * r.c3) by (nonlinear_arith);
        } else {
            let all = rest.push(e);
            lemma_prefix(rest, all, bus, message, beta, gamma, rest.len());
        }
    }
}

/// The signed sum in the integers of balanced events is congruent to zero.
proof fn lemma_raw_balanced(events: Seq<Event>, beta: Ext, gamma: Ext)
    requires
        balanced(events),
    ensures
        ext_congruent(raw_sum(events, beta, gamma, events.len()), ext_zero()),
    decreases events.len(),
{
    if events.len() == 0 {
        lemma_small_mod(0, modulus() as nat);
    } else {
        let bus = events[0].bus;
        let message = events[0].message;
        let rest = without(events, bus, message, events.len());
        assert(carries(events[0], bus, message));
        lemma_without(events, bus, message, bus, message, events.len());
        assert forall|b: usize, m: Seq<int>| #[trigger]
            net(rest, b, m, rest.len()) % modulus() == 0 by {
            lemma_without(events, bus, message, b, m, events.len());
            assert(net(events, b, m, events.len()) % modulus() == 0);
            lemma_small_mod(0, modulus() as nat);
        }
        lemma_raw_balanced(rest, beta, gamma);
        lemma_raw_split(events, bus, message, beta, gamma, events.len());
        let r = inverse_or_zero(event_rlc(bus, message, beta, gamma));
        let k = net(events, bus, message, events.len());
        let others = raw_sum(rest, beta, gamma, rest.len());
        assert(congruent(k, 0)) by {
            assert(net(events, bus, message, events.len()) % modulus() == 0);
        }
        assert(k * r.c0 == r.c0 * k) by (nonlinear_arith);
        assert(k * r.c1 == r.c1 * k) by (nonlinear_arith);
        assert(k * r.c2 == r.c2 * k) by (nonlinear_arith);
        assert(k * r.c3 == r.c3 * k) by (nonlinear_arith);
        lemma_congruent_product(r.c0, k);
        lemma_congruent_product(r.c1, k);
        lemma_congruent_product(r.c2, k);
        lemma_congruent_product(r.c3, k);
        lemma_congruent_sum(k * r.c0, 0, others.c0, 0);
        lemma_congruent_sum(k * r.c1, 0, others.c1, 0);
        lemma_congruent_sum(k * r.c2, 0, others.c2, 0);
        lemma_congruent_sum(k * r.c3, 0, others.c3, 0);
    }
}

/// Balance: where every message is received on its bus as often as it is
/// sent, the terms of all events, added for the sends and subtracted for
/// the receives, sum to zero.
pub proof fn lemma_balanced_events_sum_to_zero(events: Seq<Event>, beta: Ext, gamma: Ext)
    requires
        balanced(events),
    ensures
        signed_sum(ext_zero(), events, beta, gamma, events.len()) == ext_zero(),
{
    let sum = signed_sum(ext_zero(), events, beta, gamma, events.len());
    let raw = raw_sum(events, beta, gamma, events.len());
    lemma_signed_sum_congruent(ext_zero(), events, beta, gamma, events.len());
    lemma_raw_balanced(events, beta, gamma);
    lemma_signed_sum_canonical(ext_zero(), events, beta, gamma, events.len());
    lemma_congruent_chain(sum.c0, raw.c0, 0);
    lemma_congruent_chain(sum.c1, raw.c1, 0);
    lemma_congruent_chain(sum.c2, raw.c2, 0);
    lemma_congruent_chain(sum.c3, raw.c3, 0);
    lemma_congruent_canonical(sum.c0, 0);
    lemma_congruent_canonical(sum.c1, 0);
    lemma_congruent_canonical(sum.c2, 0);
    lemma_congruent_canonical(sum.c3, 0);
}

/// A signed sum that starts with a canonical element is that element plus
/// the signed sum that starts with zero.
pub proof fn lemma_signed_sum_shift(start: Ext, events: Seq<Event>, beta: Ext, gamma: Ext, n: nat)
    requires
        ext_canonical(start),
    ensures
        signed_sum(start, events, beta, gamma, n) == ext_add(
            start,
            signed_sum(ext_zero(), events, beta, gamma, n),
        ),
{
    let shifted = signed_sum(start, events, beta, gamma, n);
    let plain = signed_sum(ext_zero(), events, beta, gamma, n);
    let raw = raw_sum(events, beta, gamma, n);
    let sum = ext_add(start, plain);
    lemma_signed_sum_congruent(start, events, beta, gamma, n);
    lemma_signed_sum_congruent(ext_zero(), events, beta, gamma, n);
    lemma_signed_sum_canonical(start, events, beta, gamma, n);
    lemma_shift_coefficient(shifted.c0, start.c0, plain.c0, raw.c0);
    lemma_shift_coefficient(shifted.c1, start.c1, plain.c1, raw.c1);
    lemma_shift_coefficient(shifted.c2, start.c2, plain.c2, raw.c2);
    lemma_shift_coefficient(shifted.c3, start.c3, plain.c3, raw.c3);
}

proof fn lemma_shift_coefficient(shifted: int, start: int, plain: int, raw: int)
    requires
        congruent(shifted, start + raw),
        congruent(plain, 0 + raw),
        0 <= shifted < modulus(),
    ensures
        shifted == (start + plain) % modulus(),
{
    let p = modulus();
    lemma_congruent_mod(start + plain);
    assert((start - start) % p == 0) by {
        lemma_small_mod(0, p as nat);
    }
    lemma_congruent_sum(start, start, plain, raw);
    lemma_congruent_chain((start + plain) % p, start + plain, start + raw);
    assert(((start + raw) - (start + raw)) % p == 0) by {
        lemma_small_mod(0, p as nat);
    }
    lemma_congruent_chain(shifted, start + raw, start + raw);
    lemma_congruent_chain((start + plain) % p, start + raw, shifted);
    assert((shifted - shifted) % p == 0) by {
        lemma_small_mod(0, p as nat);
    }
    lemma_congruent_chain((start + plain) % p, shifted, shifted);
    lemma_congruent_canonical(shifted, (start + plain) % p);
}

/// The signed sum over the first `n` events does not read the events after
/// them.
pub proof fn lemma_signed_sum_prefix(
    start: Ext,
    a: Seq<Event>,
    b: Seq<Event>,
    beta: Ext,
    gamma: Ext,
    n: nat,
)
    requires
        n <= a.len(),
        n <= b.len(),
        forall|i: int| 0 <= i < n ==> a[i] == b[i],
    ensures
        signed_sum(start, a, beta, gamma, n) == signed_sum(start, b, beta, gamma, n),
    decreases n,
{
    if n > 0 {
        lemma_signed_sum_prefix(start, a, b, beta, gamma, (n - 1) as nat);
    }
}

/// The signed sum over two lists of events, one after the other, is the
/// signed sum over the second that starts with the signed sum over the
/// first.
pub proof fn lemma_signed_sum_append(
    start: Ext,
    a: Seq<Event>,
    b: Seq<Event>,
    beta: Ext,
    gamma: Ext,
    j: nat,
)
    requires
        j <= b.len(),
    ensures
        signed_sum(start, a + b, beta, gamma, a.len() + j) == signed_sum(
            signed_sum(start, a, beta, gamma, a.len()),
            b,
            beta,
            gamma,
            j,
        ),
    decreases j,
{
    if j == 0 {
        lemma_signed_sum_prefix(start, a + b, a, beta, gamma, a.len());
    } else {
        lemma_signed_sum_append(start, a, b, beta, gamma, (j - 1) as nat);
        assert((a + b)[a.len() + j - 1] == b[j - 1]);
    }
}

/// The values of the fields of a message on a pair of rows.
pub open spec fn field_values(
    fields: Seq<VirtualPairCol>,
    preprocessed_row: Seq<int>,
    main_row: Seq<int>,
) -> Seq<int> {
    Seq::new(fields.len(), |j: int| fields[j].value(preprocessed_row, main_row))
}

/// What an interaction does on a pair of rows.
pub open spec fn event_of(
    interaction: (Interaction, InteractionType),
    preprocessed_row: Seq<int>,
    main_row: Seq<int>,
) -> Event {
    Event {
        kind: interaction.1,
        bus: interaction.0.argument_index,
        message: field_values(interaction.0.fields@, preprocessed_row, main_row),
        mult: interaction.0.count.value(preprocessed_row, main_row),
    }
}

/// What the interactions of a table do on a pair of rows, in their order.
pub open spec fn row_events(
    interactions: Seq<(Interaction, InteractionType)>,
    preprocessed_row: Seq<int>,
    main_row: Seq<int>,
) -> Seq<Event> {
    Seq::new(interactions.len(), |j: int| event_of(interactions[j], preprocessed_row, main_row))
}

/// What the interactions of a table do on its first `n` rows, row after
/// row.
pub open spec fn table_events(
    preprocessed: Option<Matrix<Fe>>,
    main: Option<Matrix<Fe>>,
    interactions: Seq<(Interaction, InteractionType)>,
    n: nat,
) -> Seq<Event>
    decreases n,
{
    if n == 0 {
        Seq::empty()
    } else {
        table_events(preprocessed, main, interactions, (n - 1) as nat) + row_events(
            interactions,
            trace_row(preprocessed, n - 1),
            trace_row(main, n - 1),
        )
    }
}

/// What the interactions of the first `i` tables do on all their rows,
/// table after table.
pub open spec fn machine_events(
    interactions: Seq<Vec<(Interaction, InteractionType)>>,
    preprocessed: Seq<Option<Matrix<Fe>>>,
    main: Seq<Option<Matrix<Fe>>>,
    i: nat,
) -> Seq<Event>
    decreases i,
{
    if i == 0 {
        Seq::empty()
    } else {
        machine_events(interactions, preprocessed, main, (i - 1) as nat) + table_events(
            preprocessed[i - 1],
            main[i - 1],
            interactions[i - 1]@,
            trace_height(preprocessed[i - 1], main[i - 1]),
        )
    }
}

/// The combination of the fields of a message is the combination of their
/// values.
proof fn lemma_combine(
    fields: Seq<VirtualPairCol>,
    preprocessed_row: Seq<int>,
    main_row: Seq<int>,
    beta: Ext,
    n: nat,
)
    requires
        n <= fields.len(),
    ensures
        combine_fields(preprocessed_row, main_row, fields, beta, n) == combine_values(
            field_values(fields, preprocessed_row, main_row),
            beta,
            n,
        ),
    decreases n,
{
    if n > 0 {
        lemma_combine(fields, preprocessed_row, main_row, beta, (n - 1) as nat);
    }
}

/// The sum of a row of a permutation trace is the signed sum of the events
/// of the row.
proof fn lemma_row_events(
    start: Ext,
    row: Seq<Ext>,
    interactions: Seq<(Interaction, InteractionType)>,
    preprocessed_row: Seq<int>,
    main_row: Seq<int>,
    beta: Ext,
    gamma: Ext,
    j: nat,
)
    requires
        j <= interactions.len(),
        j <= row.len(),
        forall|m: int|
            0 <= m < j ==> is_reciprocal(
                message_rlc(interactions[m].0, preprocessed_row, main_row, beta, gamma),
                #[trigger] row[m],
            ),
    ensures
        row_sum(start, row, interactions, preprocessed_row, main_row, j) == signed_sum(
            start,
            row_events(interactions, preprocessed_row, main_row),
            beta,
            gamma,
            j,
        ),
    decreases j,
{
    if j > 0 {
        lemma_row_events(
            start,
            row,
            interactions,
            preprocessed_row,
            main_row,
            beta,
            gamma,
            (j - 1) as nat,
        );
        let interaction = interactions[j - 1].0;
        lemma_combine(
            interaction.fields@,
            preprocessed_row,
            main_row,
            beta,
            interaction.fields@.len(),
        );
        let e = row_events(interactions, preprocessed_row, main_row)[j - 1];
        assert(e == event_of(interactions[j - 1], preprocessed_row, main_row));
        assert(field_values(interaction.fields@, preprocessed_row, main_row).len()
            == interaction.fields@.len());
        assert(event_rlc(e.bus, e.message, beta, gamma) == message_rlc(
            interaction,
            preprocessed_row,
            main_row,
            beta,
            gamma,
        ));
        assert(is_reciprocal(
            message_rlc(interaction, preprocessed_row, main_row, beta, gamma),
            row[j - 1],
        ));
    }
}

/// The running sum of a permutation trace on row `n` is the signed sum of
/// the events of all rows up to it.
proof fn lemma_table_events(
    perm: Matrix<Ef>,
    preprocessed: Option<Matrix<Fe>>,
    main: Option<Matrix<Fe>>,
    interactions: Seq<(Interaction, InteractionType)>,
    beta: Ext,
    gamma: Ext,
    n: int,
)
    requires
        is_permutation_trace(perm, preprocessed, main, interactions, beta, gamma),
        0 <= n < perm.rows(),
    ensures
        perm.row(n)[interactions.len() as int]@ == signed_sum(
            ext_zero(),
            table_events(preprocessed, main, interactions, (n + 1) as nat),
            beta,
            gamma,
            table_events(preprocessed, main, interactions, (n + 1) as nat).len(),
        ),
    decreases n,
{
    let k = interactions.len();
    let above = table_events(preprocessed, main, interactions, n as nat);
    let here = row_events(interactions, trace_row(preprocessed, n), trace_row(main, n));
    if n > 0 {
        lemma_table_events(perm, preprocessed, main, interactions, beta, gamma, n - 1);
    }
    perm.lemma_row(n);
    let row = ef_seq(perm.row(n));
    assert forall|m: int| 0 <= m < k implies is_reciprocal(
        message_rlc(
            interactions[m].0,
            trace_row(preprocessed, n),
            trace_row(main, n),
            beta,
            gamma,
        ),
        #[trigger] row[m],
    ) by {
        assert(row[m] == perm.row(n)[m]@);
    }
    lemma_row_events(
        sum_above(perm, n),
        row,
        interactions,
        trace_row(preprocessed, n),
        trace_row(main, n),
        beta,
        gamma,
        k,
    );
    lemma_signed_sum_append(ext_zero(), above, here, beta, gamma, here.len());
    assert(sum_above(perm, n) == signed_sum(ext_zero(), above, beta, gamma, above.len()));
    assert(table_events(preprocessed, main, interactions, (n + 1) as nat) == above + here);
}

/// The sum of the cumulative sums is canonical.
proof fn lemma_total_canonical(permutation: Seq<Option<Matrix<Ef>>>, i: nat)
    ensures
        ext_canonical(total_sum(permutation, i)),
    decreases i,
{
    if i > 0 {
        lemma_total_canonical(permutation, (i - 1) as nat);
    }
}

/// Whether every table that has rows has its permutation trace, and every
/// table without rows has none.
pub open spec fn traces_generated(
    interactions: Seq<Vec<(Interaction, InteractionType)>>,
    preprocessed: Seq<Option<Matrix<Fe>>>,
    main: Seq<Option<Matrix<Fe>>>,
    permutation: Seq<Option<Matrix<Ef>>>,
    beta: Ext,
    gamma: Ext,
) -> bool {
    &&& interactions.len() == permutation.len()
    &&& preprocessed.len() == permutation.len()
    &&& main.len() == permutation.len()
    &&& forall|i: int|
        0 <= i < permutation.len() ==> match #[trigger] permutation[i] {
            Some(perm) => trace_height(preprocessed[i], main[i]) > 0 && is_permutation_trace(
                perm,
                preprocessed[i],
                main[i],
                interactions[i]@,
                beta,
                gamma,
            ),
            None => trace_height(preprocessed[i], main[i]) == 0,
        }
}

/// The cumulative sums of the first `i` tables add up to the signed sum of
/// all events of these tables.
pub proof fn lemma_total_is_signed_sum(
    interactions: Seq<Vec<(Interaction, InteractionType)>>,
    preprocessed: Seq<Option<Matrix<Fe>>>,
    main: Seq<Option<Matrix<Fe>>>,
    permutation: Seq<Option<Matrix<Ef>>>,
    beta: Ext,
    gamma: Ext,
    i: nat,
)
    requires
        traces_generated(interactions, preprocessed, main, permutation, beta, gamma),
        i <= permutation.len(),
    ensures
        total_sum(permutation, i) == signed_sum(
            ext_zero(),
            machine_events(interactions, preprocessed, main, i),
            beta,
            gamma,
            machine_events(interactions, preprocessed, main, i).len(),
        ),
    decreases i,
{
    if i > 0 {
        lemma_total_is_signed_sum(
            interactions,
            preprocessed,
            main,
            permutation,
            beta,
            gamma,
            (i - 1) as nat,
        );
        let before = machine_events(interactions, preprocessed, main, (i - 1) as nat);
        let height = trace_height(preprocessed[i - 1], main[i - 1]);
        let here = table_events(preprocessed[i - 1], main[i - 1], interactions[i - 1]@, height);
        let total = total_sum(permutation, (i - 1) as nat);
        assert(permutation[i - 1] is Some || permutation[i - 1] is None);
        match permutation[i - 1] {
            Some(perm) => {
                lemma_table_events(
                    perm,
                    preprocessed[i - 1],
                    main[i - 1],
                    interactions[i - 1]@,
                    beta,
                    gamma,
                    height - 1,
                );
                lemma_signed_sum_append(ext_zero(), before, here, beta, gamma, here.len());
                lemma_total_canonical(permutation, (i - 1) as nat);
                lemma_signed_sum_shift(total, here, beta, gamma, here.len());
            },
            None => {
                assert(here =~= Seq::<Event>::empty());
                assert(before + here =~= before);
            },
        }
    }
}

/// Cumulative-sum invariant: where every table has its permutation trace
/// and, over all tables, every message is received on its bus as often as
/// it is sent, the cumulative sums of all tables add up to zero.
pub proof fn lemma_balanced_machine_sums_to_zero(
    interactions: Seq<Vec<(Interaction, InteractionType)>>,
    preprocessed: Seq<Option<Matrix<Fe>>>,
    main: Seq<Option<Matrix<Fe>>>,
    permutation: Seq<Option<Matrix<Ef>>>,
    beta: Ext,
    gamma: Ext,
)
    requires
        traces_generated(interactions, preprocessed, main, permutation, beta, gamma),
        balanced(machine_events(interactions, preprocessed, main, permutation.len())),
    ensures
        total_sum(permutation, permutation.len()) == ext_zero(),
{
    lemma_total_is_signed_sum(
        interactions,
        preprocessed,
        main,
        permutation,
        beta,
        gamma,
        permutation.len(),
    );
    lemma_balanced_events_sum_to_zero(
        machine_events(interactions, preprocessed, main, permutation.len()),
        beta,
        gamma,
    );
}

} // verus!
