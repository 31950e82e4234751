//! What holds of the library as a whole, stated over the models that the
//! contracts of its functions use.

use vstd::prelude::*;
use vstd::arithmetic::power2::*;
use vstd::utf8::*;
use crate::condition::{all_pass, failed_names, verdict};
use crate::config::{
    built, compiled, compiled_entry, display_name, is_deprecated, key_parts, kind_of, last_dot, Kind,
};
use crate::event::EventView;
use crate::float::{
    exponent_of, float_equal, float_to_integer, fraction_of, integer_to_float, lemma_top_bit_bounds,
    magnitude_floor, rounded_significand, sign_of, top_bit,
};
use crate::ordered::with_entry;
use crate::predicate::{passes, PredicateView};
use crate::value::{value_bytes, value_text, ArgView, ValueView};

verus! {

/// The places, among the predicates, of those that the event fails, in
/// ascending order.
pub open spec fn failed_places(entries: Seq<(Seq<char>, PredicateView)>, e: EventView) -> Seq<int>
    decreases entries.len(),
{
    if entries.len() == 0 {
        Seq::empty()
    } else {
        let before = failed_places(entries.drop_last(), e);
        if passes(entries.last().1, e) {
            before
        } else {
            before.push(entries.len() - 1)
        }
    }
}

/// For each named predicate that the rules compile to, the place of the
/// first rule that gave it its name.
pub open spec fn origins(items: Seq<(Seq<char>, ArgView)>) -> Seq<int>
    decreases items.len(),
{
    if items.len() == 0 {
        Seq::empty()
    } else {
        let before = origins(items.drop_last());
        let entries = compiled(items.drop_last());
        let (key, arg) = items.last();
        if compiled_entry(key, arg) is Ok && !(exists|at: int|
            0 <= at < entries.len() && entries[at].0 == display_name(key, arg)) {
            before.push(items.len() - 1)
        } else {
            before
        }
    }
}

/// The plain verdict and the explained one never disagree: an event passes
/// every predicate exactly where the explained verdict is a success.
pub proof fn law_check_agrees_with_context(entries: Seq<(Seq<char>, PredicateView)>, e: EventView)
    ensures
        all_pass(entries, e) == (verdict(entries, e) is Ok),
    decreases entries.len(),
{
    if entries.len() > 0 {
        let front = entries.drop_last();
        law_check_agrees_with_context(front, e);
        if all_pass(entries, e) {
            assert forall|i: int| 0 <= i < front.len() implies passes(#[trigger] front[i].1, e) by {
                assert(front[i] == entries[i]);
            }
            assert(passes(entries[entries.len() - 1].1, e));
        }
        if verdict(entries, e) is Ok {
            assert forall|i: int| 0 <= i < entries.len() implies passes(
                #[trigger] entries[i].1,
                e,
            ) by {
                if i < front.len() {
                    assert(front[i] == entries[i]);
                }
            }
        }
    }
}

/// The explained verdict names the failing predicates in their own order:
/// the names listed are those at the failing places, the places ascend, and
/// no failing place is left out.
pub proof fn law_failures_in_order(entries: Seq<(Seq<char>, PredicateView)>, e: EventView)
    ensures
        failed_places(entries, e).len() == failed_names(entries, e).len(),
        forall|k: int|
            0 <= k < failed_places(entries, e).len() ==> {
                let at = #[trigger] failed_places(entries, e)[k];
                &&& 0 <= at < entries.len()
                &&& !passes(entries[at].1, e)
                &&& failed_names(entries, e)[k] == entries[at].0
            },
        forall|k: int, l: int|
            0 <= k < l < failed_places(entries, e).len() ==> failed_places(entries, e)[k]
                < failed_places(entries, e)[l],
        forall|i: int|
            0 <= i < entries.len() && !passes(#[trigger] entries[i].1, e) ==> failed_places(
                entries,
                e,
            ).contains(i),
    decreases entries.len(),
{
    if entries.len() > 0 {
        let front = entries.drop_last();
        let places = failed_places(entries, e);
        let before = failed_places(front, e);
        law_failures_in_order(front, e);
        assert forall|k: int| 0 <= k < before.len() implies 0 <= before[k] < front.len()
            && entries[before[k]] == front[before[k]] by {
            let at = before[k];
        }
        assert forall|k: int| 0 <= k < places.len() implies {
            let at = #[trigger] places[k];
            &&& 0 <= at < entries.len()
            &&& !passes(entries[at].1, e)
            &&& failed_names(entries, e)[k] == entries[at].0
        } by {
            if k < before.len() {
                assert(places[k] == before[k]);
            }
        }
        assert forall|k: int, l: int| 0 <= k < l < places.len() implies places[k] < places[l] by {
            assert(places[k] == before[k]);
            if l < before.len() {
                assert(places[l] == before[l]);
            }
        }
        assert forall|i: int|
            0 <= i < entries.len() && !passes(#[trigger] entries[i].1, e) implies places.contains(
            i,
        ) by {
            if i < front.len() {
                assert(front[i] == entries[i]);
                assert(before.contains(i));
                let k = choose|k: int| 0 <= k < before.len() && before[k] == i;
                assert(places[k] == i);
            } else {
                assert(places[places.len() - 1] == i);
            }
        }
    }
}

/// The named predicates stand in the order of the rules: each bears the name
/// that some rule that compiles gives, and the rules that first gave the
/// names ascend with the places of the predicates.
pub proof fn law_predicates_in_rule_order(items: Seq<(Seq<char>, ArgView)>)
    ensures
        origins(items).len() == compiled(items).len(),
        forall|i: int|
            0 <= i < origins(items).len() ==> {
                let from = #[trigger] origins(items)[i];
                &&& 0 <= from < items.len()
                &&& compiled_entry(items[from].0, items[from].1) is Ok
                &&& compiled(items)[i].0 == display_name(items[from].0, items[from].1)
            },
        forall|i: int, j: int|
            0 <= i < j < origins(items).len() ==> origins(items)[i] < origins(items)[j],
    decreases items.len(),
{
    if items.len() > 0 {
        let front = items.drop_last();
        law_predicates_in_rule_order(front);
        let before = origins(front);
        let entries = compiled(front);
        let (key, arg) = items.last();
        let name = display_name(key, arg);
        let now = origins(items);
        let after = compiled(items);
        assert forall|i: int| 0 <= i < before.len() implies 0 <= before[i] < front.len()
            && front[before[i]] == items[before[i]] by {
            let from = before[i];
        }
        if compiled_entry(key, arg) is Ok {
            let predicate = compiled_entry(key, arg)->Ok_0;
            assert(after == with_entry(entries, name, predicate));
            if exists|at: int| 0 <= at < entries.len() && entries[at].0 == name {
                assert(after.len() == entries.len());
                assert forall|i: int| 0 <= i < after.len() implies after[i].0 == entries[i].0 by {}
            } else {
                assert(after == entries.push((name, predicate)));
                assert(now == before.push(items.len() - 1));
            }
        }
        assert forall|i: int| 0 <= i < now.len() implies {
            let from = #[trigger] now[i];
            &&& 0 <= from < items.len()
            &&& compiled_entry(items[from].0, items[from].1) is Ok
            &&& after[i].0 == display_name(items[from].0, items[from].1)
        } by {
            if i < before.len() {
                assert(now[i] == before[i]);
                assert(after[i].0 == entries[i].0);
            }
        }
        assert forall|i: int, j: int| 0 <= i < j < now.len() implies now[i] < now[j] by {
            assert(now[i] == before[i]);
            if j < before.len() {
                assert(now[j] == before[j]);
            }
        }
    }
}

/// The deprecated name of a kind makes what the current name makes, for the
/// same target and argument; only the first is marked as deprecated.
pub proof fn law_prefix_is_starts_with(target: Seq<char>, arg: ArgView)
    ensures
        built("prefix"@, target, arg) == built("starts_with"@, target, arg),
        kind_of("prefix"@) == Some(Kind::StartsWith),
        is_deprecated("prefix"@),
        !is_deprecated("starts_with"@),
{
    reveal_strlit("prefix");
    reveal_strlit("starts_with");
    reveal_strlit("eq");
    reveal_strlit("equals");
    reveal_strlit("neq");
    reveal_strlit("not_equals");
    reveal_strlit("contains");
    assert("prefix"@.len() == 6);
    assert("starts_with"@.len() == 11);
    assert("prefix"@[0] == 'p');
    assert("equals"@[0] == 'e');
    assert("starts_with"@[0] == 's');
    assert("not_equals"@[0] == 'n');
}

/// A key names a target and a kind exactly where it is the target, a `.` and
/// the kind, neither of them empty and the kind without a `.`.
pub proof fn law_key_parts(key: Seq<char>, target: Seq<char>, kind: Seq<char>)
    ensures
        key_parts(key) == Some((target, kind)) <==> {
            &&& key == target + seq!['.'] + kind
            &&& target.len() > 0
            &&& kind.len() > 0
            &&& !kind.contains('.')
        },
{
    lemma_last_dot_is_last(key);
    let dot = last_dot(key);
    if key_parts(key) == Some((target, kind)) {
        assert(key =~= target + seq!['.'] + kind);
        if kind.contains('.') {
            let j = choose|j: int| 0 <= j < kind.len() && kind[j] == '.';
            assert(key[dot + 1 + j] == '.');
        }
    }
    if key == target + seq!['.'] + kind && target.len() > 0 && kind.len() > 0 && !kind.contains(
        '.',
    ) {
        let at = target.len() as int;
        assert(key[at] == '.');
        assert forall|j: int| at < j < key.len() implies key[j] != '.' by {
            assert(key[j] == kind[j - at - 1]);
        }
        assert(dot == at);
        assert(key.subrange(0, dot) =~= target);
        assert(key.subrange(dot + 1, key.len() as int) =~= kind);
    }
}

/// The last `.` of a key is a `.`, and none stands behind it.
pub proof fn lemma_last_dot_is_last(key: Seq<char>)
    ensures
        -1 <= last_dot(key) < key.len(),
        last_dot(key) >= 0 ==> key[last_dot(key)] == '.',
        forall|j: int| last_dot(key) < j < key.len() ==> key[j] != '.',
    decreases key.len(),
{
    if key.len() > 0 && key.last() != '.' {
        let front = key.drop_last();
        lemma_last_dot_is_last(front);
        assert forall|j: int| last_dot(key) < j < key.len() implies key[j] != '.' by {
            if j < front.len() {
                assert(front[j] == key[j]);
            }
        }
    }
}

/// An integer of up to 53 bits converts to a binary64 number that converts
/// back to it, and that equals itself.
pub proof fn law_integer_survives_float(i: int)
    requires
        -0x20_0000_0000_0000 <= i <= 0x20_0000_0000_0000,
    ensures
        float_to_integer(integer_to_float(i)) == i,
        float_equal(integer_to_float(i), integer_to_float(i)),
{
    lemma2_to64();
    lemma2_to64_rest();
    if i != 0 {
        let n = (if i < 0 {
            -i
        } else {
            i
        }) as nat;
        let e = top_bit(n);
        lemma_top_bit_bounds(n);
        if e > 53 {
            lemma_pow2_strictly_increases(53, e);
        }
        let significand = rounded_significand(n, e);
        if e == 53 {
            assert(n == 0x20_0000_0000_0000);
            assert(significand == 0x10_0000_0000_0000);
        } else {
            let scale = pow2((52 - e) as nat) as int;
            lemma_pow2_pos((52 - e) as nat);
            lemma_pow2_adds(e, (52 - e) as nat);
            lemma_pow2_adds(e + 1, (52 - e) as nat);
            assert(n * scale >= pow2(e) * scale) by (nonlinear_arith)
                requires
                    n >= pow2(e),
                    scale > 0,
            ;
            assert(n * scale < pow2(e + 1) * scale) by (nonlinear_arith)
                requires
                    n < pow2(e + 1),
                    scale > 0,
            ;
            assert((n * scale) / scale == n) by (nonlinear_arith)
                requires
                    scale > 0,
            ;
            assert(significand == n * scale);
        }
        assert(0x10_0000_0000_0000 <= significand < 0x20_0000_0000_0000);
        let fraction = significand - 0x10_0000_0000_0000;
        let body = (e + 1023) * 0x10_0000_0000_0000 + fraction;
        let bits = integer_to_float(i);
        assert(body < 0x8000_0000_0000_0000) by (nonlinear_arith)
            requires
                body == (e + 1023) * 0x10_0000_0000_0000 + fraction,
                e <= 53,
                0 <= fraction < 0x10_0000_0000_0000,
        ;
        assert(body >= 0) by (nonlinear_arith)
            requires
                body == (e + 1023) * 0x10_0000_0000_0000 + fraction,
                0 <= fraction,
        ;
        let field = if i < 0 {
            e + 1023 + 2048
        } else {
            e + 1023
        };
        assert(bits as int == field * 0x10_0000_0000_0000 + fraction);
        assert(bits as int / 0x10_0000_0000_0000 == field && bits as int % 0x10_0000_0000_0000
            == fraction) by (nonlinear_arith)
            requires
                bits as int == field * 0x10_0000_0000_0000 + fraction,
                0 <= fraction < 0x10_0000_0000_0000,
        ;
        assert(exponent_of(bits) == e + 1023);
        assert(fraction_of(bits) == fraction);
        assert(sign_of(bits) == (i < 0));
        if e == 53 {
            assert(magnitude_floor(bits) == significand * pow2(1));
        } else if e == 52 {
            assert(magnitude_floor(bits) == significand * pow2(0));
            assert(significand == n * pow2(0));
            assert(n * 1 * 1 == n) by (nonlinear_arith);
        } else {
            assert(magnitude_floor(bits) == significand / pow2((52 - e) as nat) as int);
        }
        assert(magnitude_floor(bits) == n);
    }
}

/// The text of a value made from a text is that text.
pub proof fn law_text_is_kept(text: Seq<char>)
    ensures
        value_text(ValueView::Bytes(encode_utf8(text))) == text,
        value_bytes(ValueView::Bytes(encode_utf8(text))) == encode_utf8(text),
{
    encode_utf8_valid_utf8(text);
    encode_utf8_decode_utf8(text);
}

} // verus!
