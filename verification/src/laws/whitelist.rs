//! What the registry does, said of the rules, the expiry times and the queue before and after.

use crate::heap::{ExpireHeap, ExpireNode};
use crate::registry::{
    load_rust_state, load_singbox_config, rebuild_expire_heap, should_rebuild_heap, Registry,
    RegistryCmd, RegistryModel, RustRegistryState, SingBoxConfig, TickOutcome,
};
use crate::table::{lemma_listed_nodes, lemma_live_nodes, live_nodes, table_of, ExpiryTable};
use core::cmp::Ordering;
use vstd::multiset::Multiset;
use vstd::prelude::*;
use vstd::seq_lib::*;

verus! {

/// `rules` are the rules of a whitelist file, range by range.
pub open spec fn are_rules_of(config: SingBoxConfig, rules: Seq<Seq<Seq<char>>>) -> bool {
    &&& config.rules@.len() == rules.len()
    &&& forall|i: int|
        0 <= i < rules.len() ==> (#[trigger] config.rules@[i]).source_ip_cidr@.len()
            == rules[i].len()
    &&& forall|i: int, j: int|
        0 <= i < rules.len() && 0 <= j < rules[i].len() ==> (
        #[trigger] config.rules@[i].source_ip_cidr@[j])@ == rules[i][j]
}

proof fn lemma_rules(config: SingBoxConfig)
    ensures
        are_rules_of(config, config@.1),
{
}

/// A registry starts with the rules and the expiry times that it is given, with each expiry queued
/// once, and with nothing to write.
pub proof fn law_registry_starts_from_what_was_read(
    sb_config: SingBoxConfig,
    rust_state: RustRegistryState,
    registry: Registry,
    node: (Seq<char>, u64),
)
    requires
        rust_state.expires.wf(),
        call_ensures(Registry::new, (sb_config, rust_state), registry),
    ensures
        registry@.version == sb_config.version,
        are_rules_of(sb_config, registry@.rules),
        registry@.expires == rust_state.expires@,
        registry@.pending.count(node) == if rust_state.expires@.contains_key(node.0)
            && rust_state.expires@[node.0] == node.1 {
            1nat
        } else {
            0nat
        },
        !registry@.dirty,
{
    rust_state.expires.lemma_finite();
    lemma_live_nodes(rust_state.expires@, node);
}

/// What a registry hands out to be written, and says of itself, is what it holds.
pub proof fn law_registry_shows_what_it_holds(
    registry: Registry,
    config: &SingBoxConfig,
    state: &RustRegistryState,
    len: usize,
    dirty: bool,
)
    requires
        registry.wf(),
        call_ensures(Registry::sb_config, (&registry,), config),
        call_ensures(Registry::rust_state, (&registry,), state),
        call_ensures(Registry::whitelist_len, (&registry,), len),
        call_ensures(Registry::is_dirty, (&registry,), dirty),
    ensures
        config.version == registry@.version,
        are_rules_of(*config, registry@.rules),
        state.expires.wf(),
        state.expires@ == registry@.expires,
        registry@.rules.len() == 0 ==> len == 0,
        registry@.rules.len() > 0 ==> len == registry@.rules[0].len(),
        dirty == registry@.dirty,
{
    lemma_rules(*config);
}

/// A registration of `cidr` until `end` turns `before` into `after`: its expiry is set and queued,
/// it stands at the end of the first rule unless it stands there already, a first rule is made
/// where there is none, and all else stays. A queue of more than four times the registrations and
/// 1024 is made anew of the registrations alone.
pub open spec fn registers(
    before: RegistryModel,
    cidr: Seq<char>,
    end: int,
    after: RegistryModel,
) -> bool {
    let first = if before.rules.len() == 0 {
        Seq::empty()
    } else {
        before.rules[0]
    };
    &&& after.version == before.version
    &&& after.dirty
    &&& after.expires.contains_key(cidr) && after.expires[cidr] == end
    &&& forall|c: Seq<char>|
        c != cidr ==> {
            &&& #[trigger] after.expires.contains_key(c) == before.expires.contains_key(c)
            &&& after.expires.contains_key(c) ==> after.expires[c] == before.expires[c]
        }
    &&& after.rules.len() == if before.rules.len() == 0 {
        1
    } else {
        before.rules.len()
    }
    &&& first.contains(cidr) ==> after.rules[0] == first
    &&& !first.contains(cidr) ==> after.rules[0] == first + seq![cidr]
    &&& forall|i: int| 1 <= i < before.rules.len() ==> #[trigger] after.rules[i] == before.rules[i]
    &&& before.pending.len() + 1 <= 4 * after.expires.len() + 1024 && before.pending.len()
        < usize::MAX ==> after.pending == before.pending.insert((cidr, end as u64))
    &&& before.pending.len() + 1 > 4 * after.expires.len() + 1024 && 4 * after.expires.len() + 1024
        <= usize::MAX ==> forall|node: (Seq<char>, u64)| #[trigger]
        after.pending.count(node) == if after.expires.contains_key(node.0) && after.expires[node.0]
            == node.1 {
            1nat
        } else {
            0nat
        }
}

proof fn lemma_registers(before: RegistryModel, cidr: Seq<char>, end: u64)
    requires
        before.expires.dom().finite(),
    ensures
        registers(before, cidr, end as int, before.registered(cidr, end)),
{
    let after = before.registered(cidr, end);
    let first = if before.rules.len() == 0 {
        Seq::empty()
    } else {
        before.rules[0]
    };
    assert(first.push(cidr) =~= first + seq![cidr]);
    if before.rules.len() == 0 {
        assert(!first.contains(cidr));
        assert(!seq![Seq::<Seq<char>>::empty()][0].contains(cidr));
    }
    assert forall|node: (Seq<char>, u64)| #[trigger]
        live_nodes(after.expires).count(node) == if after.expires.contains_key(node.0)
            && after.expires[node.0] == node.1 {
            1nat
        } else {
            0nat
        } by {
        lemma_live_nodes(after.expires, node);
    }
}

/// Registering sets the expiry of one address range, lists it, and touches nothing else.
pub proof fn law_registering_touches_one_range(
    registry: &mut Registry,
    cidr: String,
    duration_secs: u64,
    now: u64,
)
    requires
        old(registry).wf(),
        now + duration_secs <= u64::MAX,
        call_ensures(Registry::register, (registry, cidr, duration_secs, now), ()),
    ensures
        final(registry).wf(),
        registers(old(registry)@, cidr@, now + duration_secs, final(registry)@),
{
    old(registry).lemma_wf();
    lemma_registers(old(registry)@, cidr@, (now + duration_secs) as u64);
}

/// Clearing turns `before` into `after`: the first rule loses every range, no rule comes or goes,
/// every other rule stays, and no registration and no queued expiry is left.
pub open spec fn clears(before: RegistryModel, after: RegistryModel) -> bool {
    &&& after.version == before.version
    &&& after.dirty == before.dirty
    &&& after.rules.len() == before.rules.len()
    &&& after.rules.len() > 0 ==> after.rules[0].len() == 0
    &&& forall|i: int| 1 <= i < before.rules.len() ==> #[trigger] after.rules[i] == before.rules[i]
    &&& forall|c: Seq<char>| !#[trigger] after.expires.contains_key(c)
    &&& after.pending.len() == 0
}

/// Clearing empties the first rule and forgets every registration, and touches no other rule.
pub proof fn law_clearing_empties_the_first_rule(registry: &mut Registry)
    requires
        old(registry).wf(),
        call_ensures(Registry::clear_all, (registry,), ()),
    ensures
        final(registry).wf(),
        clears(old(registry)@, final(registry)@),
{
}

/// In a registry with one rule, clearing leaves no address range in any rule.
pub proof fn law_clearing_leaves_no_range(registry: &mut Registry, i: int, cidr: Seq<char>)
    requires
        old(registry).wf(),
        old(registry)@.rules.len() <= 1,
        call_ensures(Registry::clear_all, (registry,), ()),
        0 <= i < final(registry)@.rules.len(),
    ensures
        !final(registry)@.rules[i].contains(cidr),
{
    law_clearing_empties_the_first_rule(registry);
}

/// A command to register registers and waits to be written; a command to clear clears and is
/// written at once.
pub proof fn law_commands_are_carried_out(
    registry: &mut Registry,
    cmd: RegistryCmd,
    now: u64,
    persist: bool,
)
    requires
        old(registry).wf(),
        cmd matches RegistryCmd::Register(_, duration_secs) ==> now + duration_secs <= u64::MAX,
        call_ensures(Registry::handle_command, (registry, cmd, now), persist),
    ensures
        final(registry).wf(),
        match cmd {
            RegistryCmd::Register(cidr, duration_secs) => !persist && registers(
                old(registry)@,
                cidr@,
                now + duration_secs,
                final(registry)@,
            ),
            RegistryCmd::ClearAll => persist && clears(old(registry)@, final(registry)@),
        },
{
    old(registry).lemma_wf();
    if let RegistryCmd::Register(cidr, duration_secs) = cmd {
        lemma_registers(old(registry)@, cidr@, (now + duration_secs) as u64);
    }
}

/// An address range is registered until a time that has come.
pub open spec fn is_over(model: RegistryModel, now: u64, cidr: Seq<char>) -> bool {
    model.expires.contains_key(cidr) && model.expires[cidr] <= now
}

/// A tick turns `before` into `after`: the ranges that are over leave the registrations and every
/// place in the first rule, queued expiries that have come leave the queue, and all else stays,
/// in order.
pub open spec fn ticks(before: RegistryModel, now: u64, after: RegistryModel) -> bool {
    &&& after.version == before.version
    &&& after.dirty == before.dirty
    &&& after.rules.len() == before.rules.len()
    &&& before.rules.len() > 0 ==> after.rules[0] == before.rules[0].filter(
        |c: Seq<char>| !is_over(before, now, c),
    )
    &&& forall|i: int| 1 <= i < before.rules.len() ==> #[trigger] after.rules[i] == before.rules[i]
    &&& forall|c: Seq<char>|
        {
            &&& #[trigger] after.expires.contains_key(c) <==> before.expires.contains_key(c)
                && before.expires[c] > now
            &&& after.expires.contains_key(c) ==> after.expires[c] == before.expires[c]
        }
    &&& forall|node: (Seq<char>, u64)| #[trigger]
        after.pending.count(node) == if node.1 > now {
            before.pending.count(node)
        } else {
            0
        }
}

/// The earliest of the queued expiries of `a` is no later than that of `b`.
pub open spec fn comes_no_later(
    pending: Multiset<(Seq<char>, u64)>,
    a: Seq<char>,
    b: Seq<char>,
) -> bool {
    exists|t: u64| #[trigger]
        pending.count((a, t)) > 0 && forall|u: u64| #[trigger] pending.count((b, u)) > 0 ==> t <= u
}

/// A tick drops what is over and reports it, once each, in the order in which the earliest queued
/// expiries come; it asks for a write where something was dropped or was still to be written.
pub proof fn law_tick_drops_what_is_over(registry: &mut Registry, now: u64, outcome: TickOutcome)
    requires
        old(registry).wf(),
        call_ensures(Registry::tick, (registry, now), outcome),
    ensures
        final(registry).wf(),
        ticks(old(registry)@, now, final(registry)@),
        forall|c: Seq<char>|
            outcome.expired.deep_view().contains(c) <==> #[trigger] is_over(
                old(registry)@,
                now,
                c,
            ),
        forall|i: int, j: int|
            0 <= i < j < outcome.expired@.len() ==> {
                &&& (#[trigger] outcome.expired@[i])@ != (#[trigger] outcome.expired@[j])@
                &&& comes_no_later(
                    old(registry)@.pending,
                    outcome.expired@[i]@,
                    outcome.expired@[j]@,
                )
            },
        outcome.persist <==> old(registry)@.dirty || outcome.expired@.len() > 0,
{
    broadcast use vstd::multiset::group_multiset_axioms;

    let before = old(registry)@;
    assert((|c: Seq<char>| !before.lapsed(now, c)) =~= (|c: Seq<char>| !is_over(before, now, c)));
    assert forall|c: Seq<char>|
        outcome.expired.deep_view().contains(c) <==> #[trigger] is_over(before, now, c) by {
        assert(before.lapsed(now, c) == is_over(before, now, c));
    }
    assert forall|i: int, j: int| 0 <= i < j < outcome.expired@.len() implies {
        &&& (#[trigger] outcome.expired@[i])@ != (#[trigger] outcome.expired@[j])@
        &&& comes_no_later(before.pending, outcome.expired@[i]@, outcome.expired@[j]@)
    } by {
        let list = outcome.expired.deep_view();
        assert(list[i] == outcome.expired@[i]@ && list[j] == outcome.expired@[j]@);
        assert(before.queued_no_later(list[i], list[j]));
        let t = choose|t: u64| #[trigger]
            before.pending.contains((list[i], t)) && forall|u: u64| #[trigger]
                before.pending.contains((list[j], u)) ==> t <= u;
        assert(before.pending.count((outcome.expired@[i]@, t)) > 0);
        assert forall|u: u64| #[trigger] before.pending.count((outcome.expired@[j]@, u)) > 0 implies t
            <= u by {
            assert(before.pending.contains((list[j], u)));
        }
    }
    if outcome.expired@.len() > 0 {
        let first = outcome.expired.deep_view()[0];
        assert(outcome.expired.deep_view().contains(first));
        assert(before.lapsed(now, first));
    } else {
        assert forall|c: Seq<char>| !#[trigger] before.lapsed(now, c) by {
            assert(!outcome.expired.deep_view().contains(c));
        }
    }
}

/// An attempt to write changes nothing but whether there is something to write: there is, if it
/// failed.
pub proof fn law_write_is_recorded(registry: &mut Registry, ok: bool)
    requires
        old(registry).wf(),
        call_ensures(Registry::persisted, (registry, ok), ()),
    ensures
        final(registry).wf(),
        final(registry)@.dirty == !ok,
        final(registry)@.version == old(registry)@.version,
        final(registry)@.rules == old(registry)@.rules,
        final(registry)@.expires == old(registry)@.expires,
        final(registry)@.pending == old(registry)@.pending,
{
}

/// The queue is rebuilt just where it holds more than four times the registrations and 1024 besides,
/// and never where that bound cannot be counted.
pub proof fn law_long_queues_are_rebuilt(heap_len: usize, live_len: usize, due: bool)
    requires
        call_ensures(should_rebuild_heap, (heap_len, live_len), due),
    ensures
        due <==> heap_len > 4 * live_len + 1024,
{
}

/// A rebuilt queue holds each registration once, with its expiry, and nothing else.
pub proof fn law_rebuilt_queue(
    state: RustRegistryState,
    heap: ExpireHeap,
    node: (Seq<char>, u64),
)
    requires
        state.expires.wf(),
        call_ensures(rebuild_expire_heap, (&state,), heap),
    ensures
        heap.wf(),
        heap@.count(node) == if state.expires@.contains_key(node.0) && state.expires@[node.0]
            == node.1 {
            1nat
        } else {
            0nat
        },
{
    state.expires.lemma_finite();
    lemma_live_nodes(state.expires@, node);
}

/// A whitelist that was read is taken as it is; otherwise there is one rule without a range, under
/// version one.
pub proof fn law_whitelist_to_start_from(parsed: Option<SingBoxConfig>, config: SingBoxConfig)
    requires
        call_ensures(load_singbox_config, (parsed,), config),
    ensures
        match parsed {
            Some(read) => config == read,
            None => config.version == 1 && config.rules@.len() == 1
                && config.rules@[0].source_ip_cidr@.len() == 0,
        },
{
    if parsed is None {
        lemma_rules(config);
        assert(config@.1.len() == 1);
        assert(config@.1[0].len() == 0);
    }
}

/// Expiry times that were read are taken as they are; otherwise there are none.
pub proof fn law_expiry_times_to_start_from(
    parsed: Option<RustRegistryState>,
    state: RustRegistryState,
    cidr: Seq<char>,
)
    requires
        call_ensures(load_rust_state, (parsed,), state),
    ensures
        match parsed {
            Some(read) => state == read,
            None => state.expires.wf() && !state.expires@.contains_key(cidr),
        },
{
}

/// The node that expires earlier is the greater one.
pub proof fn law_earlier_is_greater(a: ExpireNode, b: ExpireNode, order: Ordering)
    requires
        call_ensures(ExpireNode::cmp, (&a, &b), order),
    ensures
        order == Ordering::Greater <==> a.expire_at < b.expire_at,
        order == Ordering::Less <==> a.expire_at > b.expire_at,
{
}

/// What is pushed to a queue is in it, once more than before, and nothing else changes.
pub proof fn law_pushed_nodes_are_queued(
    heap: &mut ExpireHeap,
    node: ExpireNode,
    other: (Seq<char>, u64),
)
    requires
        old(heap).wf(),
        call_ensures(ExpireHeap::push, (heap, node), ()),
    ensures
        final(heap).wf(),
        final(heap)@.count(other) == old(heap)@.count(other) + if other == (
            node.cidr@,
            node.expire_at,
        ) {
            1nat
        } else {
            0nat
        },
{
    broadcast use vstd::multiset::group_multiset_axioms;
    broadcast use vstd::multiset::group_multiset_properties;

}

/// A queue gives out the earliest node, once, and keeps the others; only an empty one gives none.
pub proof fn law_earliest_node_comes_first(
    heap: &mut ExpireHeap,
    node: Option<ExpireNode>,
    other: (Seq<char>, u64),
)
    requires
        old(heap).wf(),
        call_ensures(ExpireHeap::pop, (heap,), node),
    ensures
        final(heap).wf(),
        old(heap)@.count(other) > 0 ==> node is Some,
        node is None ==> final(heap)@ == old(heap)@,
        node matches Some(first) ==> {
            &&& old(heap)@.count((first.cidr@, first.expire_at)) > 0
            &&& old(heap)@.count(other) > 0 ==> first.expire_at <= other.1
            &&& final(heap)@.count(other) + (if other == (first.cidr@, first.expire_at) {
                1nat
            } else {
                0nat
            }) == old(heap)@.count(other)
        },
{
    broadcast use vstd::multiset::group_multiset_axioms;
    broadcast use vstd::multiset::group_multiset_properties;

    if let Some(first) = node {
        assert(old(heap)@.contains(first@));
        assert(old(heap)@.count(other) > 0 ==> old(heap)@.contains(other));
        assert(old(heap)@.remove(first@).count(other) == final(heap)@.count(other));
    }
}

/// After an expiry time was set, the table gives it back, and every other one as before.
pub proof fn law_table_gives_back_what_was_set(
    table: &mut ExpiryTable,
    cidr: String,
    expire_at: u64,
    other: &str,
    before: Option<u64>,
    after: Option<u64>,
)
    requires
        old(table).wf(),
        call_ensures(ExpiryTable::get, (&*old(table), other), before),
        call_ensures(ExpiryTable::insert, (table, cidr, expire_at), ()),
        call_ensures(ExpiryTable::get, (&*final(table), other), after),
    ensures
        final(table).wf(),
        after == if other@ == cidr@ {
            Some(expire_at)
        } else {
            before
        },
{
}

/// After an address range was taken out, the table does not know it, and all else as before.
pub proof fn law_table_forgets_what_was_taken_out(
    table: &mut ExpiryTable,
    cidr: &str,
    other: &str,
    before: Option<u64>,
    after: Option<u64>,
)
    requires
        old(table).wf(),
        call_ensures(ExpiryTable::get, (&*old(table), other), before),
        call_ensures(ExpiryTable::remove, (table, cidr), ()),
        call_ensures(ExpiryTable::get, (&*final(table), other), after),
    ensures
        final(table).wf(),
        after == if other@ == cidr@ {
            None
        } else {
            before
        },
{
}

/// A table that is made of a list of entries knows of each address range the last entry.
pub proof fn law_last_entry_counts(
    entries: Vec<(String, u64)>,
    table: ExpiryTable,
    cidr: &str,
    got: Option<u64>,
    last: int,
)
    requires
        call_ensures(ExpiryTable::from_entries, (entries,), table),
        call_ensures(ExpiryTable::get, (&table, cidr), got),
        forall|i: int|
            last < i < entries@.len() && 0 <= i ==> (#[trigger] entries@[i]).0@ != cidr@,
        last < entries@.len(),
    ensures
        table.wf(),
        0 <= last && entries@[last].0@ == cidr@ ==> got == Some(entries@[last].1),
        last < 0 ==> got is None,
{
    let views = entries@.map_values(|entry: (String, u64)| (entry.0@, entry.1));
    assert forall|i: int| last < i < views.len() && 0 <= i implies (#[trigger] views[i]).0
        != cidr@ by {
        assert(entries@[i].0@ != cidr@);
    }
    lemma_last_entry(views, cidr@, last);
    if 0 <= last {
        assert(views[last] == (entries@[last].0@, entries@[last].1));
    }
}

proof fn lemma_last_entry(views: Seq<(Seq<char>, u64)>, cidr: Seq<char>, last: int)
    requires
        last < views.len(),
        forall|i: int| last < i < views.len() && 0 <= i ==> (#[trigger] views[i]).0 != cidr,
    ensures
        0 <= last && views[last].0 == cidr ==> table_of(views).contains_key(cidr)
            && table_of(views)[cidr] == views[last].1,
        last < 0 ==> !table_of(views).contains_key(cidr),
    decreases views.len(),
{
    if views.len() > 0 && last < views.len() - 1 {
        let shorter = views.drop_last();
        assert(views[views.len() - 1].0 != cidr);
        assert forall|i: int| last < i < shorter.len() && 0 <= i implies (#[trigger] shorter[i]).0
            != cidr by {
            assert(views[i].0 != cidr);
        }
        lemma_last_entry(shorter, cidr, last);
    }
}

/// A table counts as many entries as it hands out; a new or cleared one has none.
pub proof fn law_table_counts_its_entries(
    table: ExpiryTable,
    len: usize,
    entries: &Vec<ExpireNode>,
    fresh: ExpiryTable,
    cidr: Seq<char>,
)
    requires
        table.wf(),
        call_ensures(ExpiryTable::len, (&table,), len),
        call_ensures(ExpiryTable::entries, (&table,), entries),
        call_ensures(ExpiryTable::new, (), fresh),
    ensures
        len == entries@.len(),
        fresh.wf(),
        !fresh@.contains_key(cidr),
{
    lemma_listed_nodes(entries@, table@);
}

/// A cleared table knows no address range.
pub proof fn law_cleared_table(table: &mut ExpiryTable, cidr: Seq<char>)
    requires
        call_ensures(ExpiryTable::clear, (table,), ()),
    ensures
        final(table).wf(),
        !final(table)@.contains_key(cidr),
{
}

/// What a queue shows is the earliest node; it shows one just where its length is not zero, and a
/// new one is empty.
pub proof fn law_queue_shows_the_earliest_node(
    heap: ExpireHeap,
    node: Option<&ExpireNode>,
    len: usize,
    other: (Seq<char>, u64),
    fresh: ExpireHeap,
    empty: usize,
)
    requires
        heap.wf(),
        call_ensures(ExpireHeap::peek, (&heap,), node),
        call_ensures(ExpireHeap::len, (&heap,), len),
        call_ensures(ExpireHeap::new, (), fresh),
        call_ensures(ExpireHeap::len, (&fresh,), empty),
    ensures
        node is Some <==> len > 0,
        node matches Some(first) ==> heap@.count((first.cidr@, first.expire_at)) > 0 && (
        heap@.count(other) > 0 ==> first.expire_at <= other.1),
        heap@.count(other) <= len,
        empty == 0,
{
    broadcast use vstd::multiset::group_multiset_axioms;
    broadcast use vstd::multiset::group_multiset_properties;

    assert(heap@.count(other) > 0 ==> heap@.contains(other));
}

/// A cleared queue is empty.
pub proof fn law_cleared_queue(heap: &mut ExpireHeap)
    requires
        call_ensures(ExpireHeap::clear, (heap,), ()),
    ensures
        final(heap).wf(),
        final(heap)@.len() == 0,
{
    broadcast use vstd::multiset::group_multiset_axioms;

}

/// The entries of a table give each address range that it knows once, with its expiry time.
pub proof fn law_entries_of_a_table(
    table: ExpiryTable,
    entries: &Vec<ExpireNode>,
    cidr: &str,
    got: Option<u64>,
)
    requires
        table.wf(),
        call_ensures(ExpiryTable::entries, (&table,), entries),
        call_ensures(ExpiryTable::get, (&table, cidr), got),
    ensures
        got is Some <==> exists|i: int|
            0 <= i < entries@.len() && (#[trigger] entries@[i]).cidr@ == cidr@,
        forall|i: int|
            0 <= i < entries@.len() && (#[trigger] entries@[i]).cidr@ == cidr@ ==> got == Some(
                entries@[i].expire_at,
            ),
        forall|i: int, j: int|
            0 <= i < j < entries@.len() ==> (#[trigger] entries@[i]).cidr@ != (
            #[trigger] entries@[j]).cidr@,
{
}

} // verus!
