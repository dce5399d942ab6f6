//! What holds of the library as a whole.

pub mod answers;
pub mod fields;
pub mod forwarding;
pub mod hosts;
pub mod saving;
pub mod text;
pub mod whitelist;

use crate::headers::{is_text_byte, is_value_byte, text_value, value_text, Fields};
use crate::heap::ExpireNode;
use crate::host::{host_field, host_part, normalized_host};
use crate::html::{escaped, escaped_char};
use crate::persist::{step_after, SaveStep};
use crate::proxy::{
    proxied, proxied_value, rewritten_location, sanitized, skipped_headers, stripped_headers,
};
use crate::registry::RegistryModel;
use crate::table::{lemma_live_nodes, lists, lists_pairs, live_nodes, table_of};
use crate::text::{
    ascii_lower, ascii_lower_char, is_white_space, lemma_until, repeats, trim_end, trim_end_of,
    trim_start, trimmed, until,
};
use vstd::multiset::Multiset;
use vstd::prelude::*;
use vstd::seq_lib::*;
use vstd::utf8::*;

verus! {

/// The queue of expiries covers every registration, whatever happens.
pub proof fn law_queue_covers_registrations(
    model: RegistryModel,
    cidr: Seq<char>,
    expire_at: u64,
    now: u64,
    ok: bool,
)
    requires
        model.covered(),
        model.expires.dom().finite(),
    ensures
        model.registered(cidr, expire_at).covered(),
        model.cleared().covered(),
        model.expired(now).covered(),
        model.saved(ok).covered(),
{
    broadcast use {
        vstd::multiset::group_multiset_axioms,
        vstd::multiset::group_multiset_properties,
    };

    let registered = model.registered(cidr, expire_at);
    assert forall|c: Seq<char>| #[trigger]
        registered.expires.contains_key(c) implies registered.pending.contains(
        (c, registered.expires[c]),
    ) by {
        lemma_live_nodes(registered.expires, (c, registered.expires[c]));
        assert(model.expires.contains_key(c) || c == cidr);
    }
    let expired = model.expired(now);
    assert forall|c: Seq<char>| #[trigger]
        expired.expires.contains_key(c) implies expired.pending.contains(
        (c, expired.expires[c]),
    ) by {
        assert(model.expires.contains_key(c));
    }
    let saved = model.saved(ok);
    assert forall|c: Seq<char>| #[trigger]
        saved.expires.contains_key(c) implies saved.pending.contains((c, saved.expires[c])) by {
        assert(model.expires.contains_key(c));
    }
}

/// A tick drops what has lapsed, and nothing else.
pub proof fn law_tick_drops_what_lapsed(model: RegistryModel, now: u64, cidr: Seq<char>)
    ensures
        !model.expired(now).lapsed(now, cidr),
        model.lapsed(now, cidr) ==> !model.expired(now).expires.contains_key(cidr)
            && !model.expired(now).whitelist().contains(cidr),
        !model.lapsed(now, cidr) ==> {
            &&& model.expired(now).expires.contains_key(cidr) == model.expires.contains_key(cidr)
            &&& model.expires.contains_key(cidr) ==> model.expired(now).expires[cidr]
                == model.expires[cidr]
            &&& model.expired(now).whitelist().contains(cidr) == model.whitelist().contains(cidr)
        },
{
    let keep = |c: Seq<char>| !model.lapsed(now, c);
    if model.rules.len() > 0 {
        lemma_filter_keeps(model.rules[0], keep, cidr);
        assert(model.expired(now).whitelist() == model.rules[0].filter(keep));
    }
}

/// An address range is whitelisted from its registration until it lapses, and no longer.
pub proof fn law_registration_lasts_until_it_lapses(
    model: RegistryModel,
    cidr: Seq<char>,
    expire_at: u64,
    now: u64,
)
    ensures
        model.registered(cidr, expire_at).whitelist().contains(cidr),
        model.registered(cidr, expire_at).expired(now).whitelist().contains(cidr) <==> now
            < expire_at,
        model.registered(cidr, expire_at).expired(now).expires.contains_key(cidr) <==> now
            < expire_at,
{
    let after = model.registered(cidr, expire_at);
    lemma_registered_is_listed(model, cidr, expire_at);
    law_tick_drops_what_lapsed(after, now, cidr);
}

/// Registering an address range again only moves its end.
pub proof fn law_registering_again_moves_the_end(
    model: RegistryModel,
    cidr: Seq<char>,
    first: u64,
    second: u64,
)
    ensures
        model.registered(cidr, first).registered(cidr, second).rules == model.registered(
            cidr,
            first,
        ).rules,
        model.registered(cidr, first).registered(cidr, second).expires
            == model.expires.insert(cidr, second),
{
    lemma_registered_is_listed(model, cidr, first);
    assert(model.expires.insert(cidr, first).insert(cidr, second) =~= model.expires.insert(
        cidr,
        second,
    ));
}

/// A registration does not touch those of other address ranges.
pub proof fn law_registrations_do_not_interfere(
    model: RegistryModel,
    cidr: Seq<char>,
    expire_at: u64,
    other: Seq<char>,
)
    requires
        other != cidr,
    ensures
        ({
            let after = model.registered(cidr, expire_at);
            &&& after.whitelist().contains(other) == model.whitelist().contains(other)
            &&& after.expires.contains_key(other) == model.expires.contains_key(other)
            &&& model.expires.contains_key(other) ==> after.expires[other] == model.expires[other]
        }),
{
    lemma_push_contains(model.whitelist(), cidr, other);
}

/// A whitelist that holds what is registered and nothing else stays so, whatever happens.
pub proof fn law_whitelist_stays_in_step(
    model: RegistryModel,
    cidr: Seq<char>,
    expire_at: u64,
    now: u64,
    ok: bool,
)
    requires
        model.in_step(),
    ensures
        model.registered(cidr, expire_at).in_step(),
        model.cleared().in_step(),
        model.expired(now).in_step(),
        model.saved(ok).in_step(),
{
    let registered = model.registered(cidr, expire_at);
    assert forall|c: Seq<char>| #[trigger]
        registered.whitelist().contains(c) <==> registered.expires.contains_key(c) by {
        lemma_registered_is_listed(model, cidr, expire_at);
        if c != cidr {
            law_registrations_do_not_interfere(model, cidr, expire_at, c);
        }
        assert(model.whitelist().contains(c) <==> model.expires.contains_key(c));
    }
    let expired = model.expired(now);
    assert forall|c: Seq<char>| #[trigger]
        expired.whitelist().contains(c) <==> expired.expires.contains_key(c) by {
        law_tick_drops_what_lapsed(model, now, c);
        assert(model.whitelist().contains(c) <==> model.expires.contains_key(c));
    }
    let saved = model.saved(ok);
    assert forall|c: Seq<char>| #[trigger]
        saved.whitelist().contains(c) <==> saved.expires.contains_key(c) by {
        assert(model.whitelist().contains(c) <==> model.expires.contains_key(c));
    }
}

/// No event makes an address range stand on the whitelist twice.
pub proof fn law_whitelist_has_no_duplicates(
    model: RegistryModel,
    cidr: Seq<char>,
    expire_at: u64,
    now: u64,
)
    requires
        model.whitelist().no_duplicates(),
    ensures
        model.registered(cidr, expire_at).whitelist().no_duplicates(),
        model.cleared().whitelist().no_duplicates(),
        model.expired(now).whitelist().no_duplicates(),
{
    if model.rules.len() > 0 {
        let keep = |c: Seq<char>| !model.lapsed(now, c);
        lemma_filter_no_duplicates(model.rules[0], keep);
        assert(model.expired(now).whitelist() == model.rules[0].filter(keep));
    }
}

/// No event touches the format version or a rule other than the first.
pub proof fn law_other_rules_stay(
    model: RegistryModel,
    cidr: Seq<char>,
    expire_at: u64,
    now: u64,
    ok: bool,
    i: int,
)
    requires
        1 <= i < model.rules.len(),
    ensures
        model.registered(cidr, expire_at).version == model.version,
        model.cleared().version == model.version,
        model.expired(now).version == model.version,
        model.saved(ok).version == model.version,
        model.registered(cidr, expire_at).rules.len() == model.rules.len(),
        model.cleared().rules.len() == model.rules.len(),
        model.expired(now).rules.len() == model.rules.len(),
        model.saved(ok).rules == model.rules,
        model.registered(cidr, expire_at).rules[i] == model.rules[i],
        model.cleared().rules[i] == model.rules[i],
        model.expired(now).rules[i] == model.rules[i],
{
}

/// Clearing leaves no address range on the whitelist and no registration.
pub proof fn law_clearing_leaves_nothing(model: RegistryModel, cidr: Seq<char>)
    ensures
        model.cleared().whitelist().len() == 0,
        !model.cleared().expires.contains_key(cidr),
        model.cleared().pending.len() == 0,
{
    broadcast use vstd::multiset::group_multiset_axioms;

}

/// Two ticks do what the later one does alone.
pub proof fn law_ticks_compose(model: RegistryModel, first: u64, second: u64)
    requires
        first <= second,
    ensures
        model.expired(first).expired(second) == model.expired(second),
{
    broadcast use vstd::multiset::group_multiset_axioms;

    let once = model.expired(second);
    let half = model.expired(first);
    let twice = half.expired(second);
    assert(twice.expires =~= once.expires);
    let after_first = |node: (Seq<char>, u64)| node.1 > first;
    let after_second = |node: (Seq<char>, u64)| node.1 > second;
    assert(twice.pending =~= once.pending) by {
        assert forall|node: (Seq<char>, u64)| #[trigger]
            twice.pending.count(node) == once.pending.count(node) by {
            assert(half.pending == model.pending.filter(after_first));
            assert(twice.pending == half.pending.filter(after_second));
            assert(once.pending == model.pending.filter(after_second));
        }
    }
    if model.rules.len() > 0 {
        let keep_first = |c: Seq<char>| !model.lapsed(first, c);
        let keep_rest = |c: Seq<char>| !half.lapsed(second, c);
        let keep_second = |c: Seq<char>| !model.lapsed(second, c);
        assert(half.rules[0] == model.rules[0].filter(keep_first));
        assert(twice.rules[0] == half.rules[0].filter(keep_rest));
        assert(once.rules[0] == model.rules[0].filter(keep_second));
        lemma_filter_twice(model.rules[0], keep_first, keep_rest, keep_second);
        assert(twice.rules =~= once.rules);
    }
    assert(twice =~= once);
}

/// After a registration the queue is no longer than four times the live entries and a constant.
pub proof fn law_queue_stays_short(model: RegistryModel, cidr: Seq<char>, expire_at: u64)
    requires
        model.expires.dom().finite(),
    ensures
        model.registered(cidr, expire_at).pending.len() <= 4 * model.registered(
            cidr,
            expire_at,
        ).expires.len() + 1024,
{
    broadcast use {
        vstd::multiset::group_multiset_axioms,
        vstd::multiset::group_multiset_properties,
    };

    lemma_live_nodes_len(model.expires.insert(cidr, expire_at));
}

/// A change is not forgotten before it is on disk: a registration and a failed write leave the
/// registry dirty, a tick keeps it so, and only a successful write ends that.
pub proof fn law_changes_reach_the_disk(
    model: RegistryModel,
    cidr: Seq<char>,
    expire_at: u64,
    now: u64,
)
    ensures
        model.registered(cidr, expire_at).dirty,
        model.saved(false).dirty,
        !model.saved(true).dirty,
        model.expired(now).dirty == model.dirty,
{
}

/// A list of all the entries of a table gives the table back, in whatever order they stand.
pub proof fn law_listed_entries_give_the_table_back(
    pairs: Seq<(Seq<char>, u64)>,
    table: Map<Seq<char>, u64>,
)
    requires
        lists_pairs(pairs, table),
    ensures
        table_of(pairs) == table,
    decreases pairs.len(),
{
    if pairs.len() == 0 {
        assert(table_of(pairs) =~= table);
    } else {
        let shorter = pairs.drop_last();
        let last = pairs.last();
        let rest = table.remove(last.0);
        assert forall|i: int| 0 <= i < shorter.len() implies rest.contains_key(
            (#[trigger] shorter[i]).0,
        ) && rest[shorter[i].0] == shorter[i].1 by {
            assert(shorter[i] == pairs[i]);
            assert(pairs[i].0 != pairs[pairs.len() - 1].0);
        }
        assert forall|cidr: Seq<char>| #[trigger] rest.contains_key(cidr) implies exists|i: int|
            0 <= i < shorter.len() && (#[trigger] shorter[i]).0 == cidr by {
            assert(table.contains_key(cidr));
            let i = choose|i: int| 0 <= i < pairs.len() && (#[trigger] pairs[i]).0 == cidr;
            assert(shorter[i].0 == cidr);
        }
        assert forall|i: int, j: int| 0 <= i < j < shorter.len() implies (#[trigger] shorter[i]).0
            != (#[trigger] shorter[j]).0 by {
            assert(pairs[i].0 != pairs[j].0);
        }
        law_listed_entries_give_the_table_back(shorter, rest);
        assert(pairs[pairs.len() - 1] == last);
        assert(table_of(pairs) =~= table);
    }
}

/// The entries that a table hands out, written down and read again in whatever order, give the
/// table back: no expiry is lost.
pub proof fn law_written_entries_are_read_back(
    entries: Seq<ExpireNode>,
    pairs: Seq<(Seq<char>, u64)>,
    table: Map<Seq<char>, u64>,
)
    requires
        lists(entries, table),
        pairs.to_multiset() == entries.map_values(|entry: ExpireNode| entry@).to_multiset(),
    ensures
        table_of(pairs) == table,
{
    broadcast use vstd::multiset::group_multiset_axioms;

    let views = entries.map_values(|entry: ExpireNode| entry@);
    to_multiset_len(views);
    to_multiset_len(pairs);
    assert(views.no_duplicates()) by {
        assert forall|i: int, j: int| 0 <= i < j < views.len() implies views[i] != views[j] by {
            assert(entries[i].cidr@ != entries[j].cidr@);
        }
    }
    views.lemma_multiset_has_no_duplicates();
    pairs.lemma_multiset_has_no_duplicates_conv();
    assert forall|i: int| 0 <= i < pairs.len() implies table.contains_key((#[trigger] pairs[i]).0)
        && table[pairs[i].0] == pairs[i].1 by {
        to_multiset_contains(pairs, pairs[i]);
        to_multiset_contains(views, pairs[i]);
        let k = choose|k: int| 0 <= k < views.len() && views[k] == pairs[i];
        assert(entries[k]@ == pairs[i]);
    }
    assert forall|cidr: Seq<char>| #[trigger] table.contains_key(cidr) implies exists|i: int|
        0 <= i < pairs.len() && (#[trigger] pairs[i]).0 == cidr by {
        let k = choose|k: int| 0 <= k < entries.len() && (#[trigger] entries[k]).cidr@ == cidr;
        to_multiset_contains(views, views[k]);
        to_multiset_contains(pairs, views[k]);
        let i = choose|i: int| 0 <= i < pairs.len() && pairs[i] == views[k];
        assert(pairs[i].0 == cidr);
    }
    assert forall|i: int, j: int| 0 <= i < j < pairs.len() implies (#[trigger] pairs[i]).0 != (
    #[trigger] pairs[j]).0 by {
        assert(pairs[i] != pairs[j]);
    }
    law_listed_entries_give_the_table_back(pairs, table);
}

/// A restart from what is on disk loses nothing: whatever the order in which the expiry times were
/// written, from then on the same ranges lapse at the same time.
pub proof fn law_restart_loses_nothing(
    model: RegistryModel,
    written: Seq<(Seq<char>, u64)>,
    now: u64,
)
    requires
        lists_pairs(written, model.expires),
    ensures
        ({
            let restarted = RegistryModel {
                expires: table_of(written),
                pending: live_nodes(table_of(written)),
                dirty: false,
                ..model
            };
            &&& restarted.expires == model.expires
            &&& restarted.expired(now).rules == model.expired(now).rules
            &&& restarted.expired(now).expires == model.expired(now).expires
        }),
{
    law_listed_entries_give_the_table_back(written, model.expires);
    let restarted = RegistryModel {
        expires: table_of(written),
        pending: live_nodes(table_of(written)),
        dirty: false,
        ..model
    };
    assert((|c: Seq<char>| !restarted.lapsed(now, c)) =~= (|c: Seq<char>| !model.lapsed(now, c)));
    assert(restarted.expired(now).expires =~= model.expired(now).expires);
}

proof fn lemma_registered_is_listed(model: RegistryModel, cidr: Seq<char>, expire_at: u64)
    ensures
        model.registered(cidr, expire_at).whitelist().contains(cidr),
{
    let rules = if model.rules.len() == 0 {
        seq![Seq::<Seq<char>>::empty()]
    } else {
        model.rules
    };
    if !rules[0].contains(cidr) {
        let longer = rules[0].push(cidr);
        assert(longer[rules[0].len() as int] == cidr);
    }
}

proof fn lemma_filter_keeps<A>(list: Seq<A>, keep: spec_fn(A) -> bool, item: A)
    ensures
        list.filter(keep).contains(item) <==> list.contains(item) && keep(item),
    decreases list.len(),
{
    reveal(Seq::filter);
    if list.len() > 0 {
        let rest = list.drop_last();
        lemma_filter_keeps(rest, keep, item);
        assert(list =~= rest.push(list.last()));
        lemma_push_contains(rest, list.last(), item);
        lemma_push_contains(rest.filter(keep), list.last(), item);
    }
}

proof fn lemma_push_contains<A>(list: Seq<A>, last: A, item: A)
    ensures
        list.push(last).contains(item) <==> list.contains(item) || last == item,
{
    let longer = list.push(last);
    if list.contains(item) {
        let i = choose|i: int| 0 <= i < list.len() && list[i] == item;
        assert(longer[i] == item);
    }
    assert(longer[list.len() as int] == last);
}

proof fn lemma_filter_no_duplicates<A>(list: Seq<A>, keep: spec_fn(A) -> bool)
    requires
        list.no_duplicates(),
    ensures
        list.filter(keep).no_duplicates(),
    decreases list.len(),
{
    reveal(Seq::filter);
    if list.len() > 0 {
        let rest = list.drop_last();
        lemma_filter_no_duplicates(rest, keep);
        lemma_filter_keeps(rest, keep, list.last());
    }
}

proof fn lemma_filter_twice<A>(
    list: Seq<A>,
    first: spec_fn(A) -> bool,
    second: spec_fn(A) -> bool,
    both: spec_fn(A) -> bool,
)
    requires
        forall|item: A| both(item) <==> #[trigger] first(item) && second(item),
    ensures
        list.filter(first).filter(second) == list.filter(both),
    decreases list.len(),
{
    reveal(Seq::filter);
    if list.len() > 0 {
        let rest = list.drop_last();
        lemma_filter_twice(rest, first, second, both);
        assert(both(list.last()) <==> first(list.last()) && second(list.last()));
        if first(list.last()) {
            let kept = rest.filter(first);
            assert(kept.push(list.last()).drop_last() =~= kept);
        }
    }
}

proof fn lemma_live_nodes_len(table: Map<Seq<char>, u64>)
    requires
        table.dom().finite(),
    ensures
        live_nodes(table).len() == table.len(),
    decreases table.len(),
{
    broadcast use {
        vstd::multiset::group_multiset_axioms,
        vstd::multiset::group_multiset_properties,
    };

    if table.len() == 0 {
        assert(table.dom() =~= Set::empty());
        assert forall|node: (Seq<char>, u64)| #[trigger] live_nodes(table).count(node) == 0 by {
            lemma_live_nodes(table, node);
        }
        assert(live_nodes(table) =~= Multiset::empty());
    } else {
        let cidr = table.dom().choose();
        let rest = table.remove(cidr);
        lemma_live_nodes_len(rest);
        assert forall|node: (Seq<char>, u64)| #[trigger]
            live_nodes(table).count(node) == live_nodes(rest).insert((cidr, table[cidr])).count(
                node,
            ) by {
            lemma_live_nodes(table, node);
            lemma_live_nodes(rest, node);
        }
        assert(live_nodes(table) =~= live_nodes(rest).insert((cidr, table[cidr])));
    }
}

/// Escaped text holds no character that could open or close markup.
pub proof fn law_escaped_text_holds_no_markup(s: Seq<char>, i: int)
    requires
        0 <= i < escaped(s).len(),
    ensures
        escaped(s)[i] != '<',
        escaped(s)[i] != '>',
        escaped(s)[i] != '"',
        escaped(s)[i] != '\'',
    decreases s.len(),
{
    lemma_entities();
    if s.len() > 0 {
        let head = escaped(s.drop_last());
        if i < head.len() {
            law_escaped_text_holds_no_markup(s.drop_last(), i);
        } else {
            assert(escaped(s)[i] == escaped_char(s.last())[i - head.len()]);
        }
    }
}

/// Two texts are escaped as their parts are.
pub proof fn law_escaping_goes_part_by_part(a: Seq<char>, b: Seq<char>)
    ensures
        escaped(a + b) == escaped(a) + escaped(b),
    decreases b.len(),
{
    if b.len() == 0 {
        assert(a + b =~= a);
        assert(escaped(a) + escaped(b) =~= escaped(a));
    } else {
        law_escaping_goes_part_by_part(a, b.drop_last());
        assert((a + b).drop_last() =~= a + b.drop_last());
        assert((a + b).last() == b.last());
        assert(escaped(a + b) =~= escaped(a) + escaped(b));
    }
}

/// Escaping loses nothing: different texts stay different.
pub proof fn law_escaping_loses_nothing(a: Seq<char>, b: Seq<char>)
    requires
        escaped(a) == escaped(b),
    ensures
        a == b,
    decreases a.len(),
{
    lemma_entities();
    if a.len() > 0 {
        lemma_escaped_first(a);
    }
    if b.len() > 0 {
        lemma_escaped_first(b);
    }
    if a.len() == 0 || b.len() == 0 {
        assert(a =~= b);
    } else {
        let whole = escaped(a);
        let rest_a = escaped(a.drop_first());
        let rest_b = escaped(b.drop_first());
        assert(whole[0] == escaped_char(a.first())[0]);
        assert(whole[0] == escaped_char(b.first())[0]);
        if whole[0] == '&' {
            assert(whole[1] == escaped_char(a.first())[1]);
            assert(whole[1] == escaped_char(b.first())[1]);
        }
        assert(a.first() == b.first());
        let n = escaped_char(a.first()).len() as int;
        assert(whole.skip(n) =~= rest_a);
        assert(whole.skip(n) =~= rest_b);
        law_escaping_loses_nothing(a.drop_first(), b.drop_first());
        assert(a =~= seq![a.first()] + a.drop_first());
        assert(b =~= seq![b.first()] + b.drop_first());
    }
}

proof fn lemma_escaped_first(s: Seq<char>)
    requires
        s.len() > 0,
    ensures
        escaped(s) == escaped_char(s.first()) + escaped(s.drop_first()),
{
    let first = seq![s.first()];
    assert(s =~= first + s.drop_first());
    law_escaping_goes_part_by_part(first, s.drop_first());
    assert(escaped(first.drop_last()) =~= Seq::empty());
    assert(first.last() == s.first());
    assert(escaped(first) =~= escaped_char(s.first()));
}

/// The entities, character by character.
pub(crate) proof fn lemma_entities()
    ensures
        "&amp;"@ == seq!['&', 'a', 'm', 'p', ';'],
        "&lt;"@ == seq!['&', 'l', 't', ';'],
        "&gt;"@ == seq!['&', 'g', 't', ';'],
        "&quot;"@ == seq!['&', 'q', 'u', 'o', 't', ';'],
        "&#39;"@ == seq!['&', '#', '3', '9', ';'],
{
    reveal_strlit("&amp;");
    reveal_strlit("&lt;");
    reveal_strlit("&gt;");
    reveal_strlit("&quot;");
    reveal_strlit("&#39;");
    assert("&amp;"@ =~= seq!['&', 'a', 'm', 'p', ';']);
    assert("&lt;"@ =~= seq!['&', 'l', 't', ';']);
    assert("&gt;"@ =~= seq!['&', 'g', 't', ';']);
    assert("&quot;"@ =~= seq!['&', 'q', 'u', 'o', 't', ';']);
    assert("&#39;"@ =~= seq!['&', '#', '3', '9', ';']);
}

/// A normalized host holds no upper-case ASCII letter.
pub proof fn law_normalized_host_is_lower_case(s: Seq<char>, i: int)
    requires
        0 <= i < normalized_host(s).len(),
    ensures
        !('A' <= normalized_host(s)[i] <= 'Z'),
{
    assert(normalized_host(s)[i] == ascii_lower_char(host_part(host_field(s))[i]));
}

/// Hosts are compared without regard to the case of ASCII letters.
pub proof fn law_host_ignores_case(s: Seq<char>)
    ensures
        normalized_host(ascii_lower(s)) == normalized_host(s),
{
    lemma_lower_trim_start(s);
    lemma_lower_trim_end(trim_start(s));
    lemma_lower_trim_end_of(trimmed(s));
    let field = host_field(s);
    let low = ascii_lower(field);
    assert(host_field(ascii_lower(s)) == low);
    assert(forall|i: int| 0 <= i < field.len() ==> low[i] == ascii_lower_char(field[i]));
    if field.len() > 0 {
        let rest = field.skip(1);
        assert(low.skip(1) =~= ascii_lower(rest));
        assert(rest.contains(']') <==> ascii_lower(rest).contains(']')) by {
            if rest.contains(']') {
                let k = choose|k: int| 0 <= k < rest.len() && rest[k] == ']';
                assert(ascii_lower(rest)[k] == ']');
            }
            if ascii_lower(rest).contains(']') {
                let k = choose|k: int| 0 <= k < rest.len() && ascii_lower(rest)[k] == ']';
                assert(rest[k] == ']');
            }
        }
        lemma_lower_until(rest, ']');
        lemma_lower_twice(until(rest, ']'));
    }
    assert(repeats(field, ':') <==> repeats(low, ':')) by {
        if repeats(field, ':') {
            let (i, j) = choose|i: int, j: int|
                0 <= i < j < field.len() && #[trigger] field[i] == ':' && #[trigger] field[j]
                    == ':';
            assert(low[i] == ':' && low[j] == ':');
        }
        if repeats(low, ':') {
            let (i, j) = choose|i: int, j: int|
                0 <= i < j < low.len() && #[trigger] low[i] == ':' && #[trigger] low[j] == ':';
            assert(field[i] == ':' && field[j] == ':');
        }
    }
    lemma_lower_until(field, ':');
    lemma_lower_twice(field);
    lemma_lower_twice(until(field, ':'));
}

/// A port does not count when hosts are compared.
pub proof fn law_host_ignores_port(host: Seq<char>, port: Seq<char>)
    requires
        host_field(host) == host,
        !host.contains(':'),
        host.len() > 0 ==> host[0] != '[',
        forall|i: int| 0 <= i < port.len() ==> '0' <= #[trigger] port[i] <= '9',
    ensures
        normalized_host(host + seq![':'] + port) == normalized_host(host),
        normalized_host(host) == ascii_lower(host),
{
    let full = host + seq![':'] + port;
    lemma_plain_field(host);
    lemma_host_field_of_plain(full);
    assert(full[host.len() as int] == ':');
    assert forall|k: int| 0 <= k < host.len() implies full[k] != ':' && host[k] != ':' by {
        assert(host.contains(host[k]));
    }
    lemma_until(full, ':', host.len() as int);
    lemma_until(host, ':', host.len() as int);
    assert(full.take(host.len() as int) =~= host);
    assert(host.take(host.len() as int) =~= host);
    assert(full[0] == (if host.len() > 0 { host[0] } else { ':' }));
    assert(!repeats(full, ':')) by {
        if repeats(full, ':') {
            let (i, j) = choose|i: int, j: int|
                0 <= i < j < full.len() && #[trigger] full[i] == ':' && #[trigger] full[j] == ':';
            assert(i >= host.len());
            assert(full[j] == port[j - host.len() - 1]);
        }
    }
    assert(!repeats(host, ':')) by {
        if repeats(host, ':') {
            let (i, j) = choose|i: int, j: int|
                0 <= i < j < host.len() && #[trigger] host[i] == ':' && #[trigger] host[j] == ':';
            assert(host.contains(host[i]));
        }
    }
}

/// Of an address in brackets only what stands in the brackets counts.
pub proof fn law_host_is_what_stands_in_brackets(addr: Seq<char>, tail: Seq<char>)
    requires
        !addr.contains(']'),
        tail.len() > 0 ==> !is_white_space(tail.last()) && tail.last() != '.',
    ensures
        normalized_host(seq!['['] + addr + seq![']'] + tail) == ascii_lower(addr),
{
    let full = seq!['['] + addr + seq![']'] + tail;
    if tail.len() > 0 {
        assert(full.last() == tail.last());
    } else {
        assert(full.last() == ']');
    }
    lemma_host_field_of_plain(full);
    let rest = full.skip(1);
    assert(rest[addr.len() as int] == ']');
    assert forall|k: int| 0 <= k < addr.len() implies rest[k] != ']' by {
        assert(rest[k] == addr[k]);
        assert(addr.contains(addr[k]));
    }
    lemma_until(rest, ']', addr.len() as int);
    assert(rest.take(addr.len() as int) =~= addr);
}

proof fn lemma_host_field_of_plain(s: Seq<char>)
    requires
        s.len() > 0,
        !is_white_space(s.first()),
        !is_white_space(s.last()),
        s.last() != '.',
    ensures
        host_field(s) == s,
{
}

proof fn lemma_plain_field(s: Seq<char>)
    requires
        host_field(s) == s,
    ensures
        s.len() > 0 ==> !is_white_space(s.first()) && !is_white_space(s.last()) && s.last() != '.',
{
    lemma_trim_start_len(s);
    lemma_trim_end_len(trim_start(s));
    lemma_trim_end_of_len(trimmed(s), '.');
    if s.len() > 0 {
        lemma_trim_start_len(s.drop_first());
        lemma_trim_end_len(s.drop_last());
        lemma_trim_end_of_len(s.drop_last(), '.');
    }
}

proof fn lemma_trim_start_len(s: Seq<char>)
    ensures
        trim_start(s).len() <= s.len(),
        trim_start(s).len() == s.len() ==> trim_start(s) == s,
    decreases s.len(),
{
    if s.len() > 0 && is_white_space(s.first()) {
        lemma_trim_start_len(s.drop_first());
    }
}

proof fn lemma_trim_end_len(s: Seq<char>)
    ensures
        trim_end(s).len() <= s.len(),
        trim_end(s).len() == s.len() ==> trim_end(s) == s,
    decreases s.len(),
{
    if s.len() > 0 && is_white_space(s.last()) {
        lemma_trim_end_len(s.drop_last());
    }
}

proof fn lemma_trim_end_of_len(s: Seq<char>, c: char)
    ensures
        trim_end_of(s, c).len() <= s.len(),
        trim_end_of(s, c).len() == s.len() ==> trim_end_of(s, c) == s,
    decreases s.len(),
{
    if s.len() > 0 && s.last() == c {
        lemma_trim_end_of_len(s.drop_last(), c);
    }
}

proof fn lemma_lower_trim_start(s: Seq<char>)
    ensures
        trim_start(ascii_lower(s)) == ascii_lower(trim_start(s)),
    decreases s.len(),
{
    if s.len() > 0 {
        assert(ascii_lower(s).drop_first() =~= ascii_lower(s.drop_first()));
        lemma_lower_trim_start(s.drop_first());
    }
}

proof fn lemma_lower_trim_end(s: Seq<char>)
    ensures
        trim_end(ascii_lower(s)) == ascii_lower(trim_end(s)),
    decreases s.len(),
{
    if s.len() > 0 {
        assert(ascii_lower(s).drop_last() =~= ascii_lower(s.drop_last()));
        lemma_lower_trim_end(s.drop_last());
    }
}

proof fn lemma_lower_trim_end_of(s: Seq<char>)
    ensures
        trim_end_of(ascii_lower(s), '.') == ascii_lower(trim_end_of(s, '.')),
    decreases s.len(),
{
    if s.len() > 0 {
        assert(ascii_lower(s).drop_last() =~= ascii_lower(s.drop_last()));
        lemma_lower_trim_end_of(s.drop_last());
    }
}

proof fn lemma_lower_until(s: Seq<char>, stop: char)
    requires
        stop == ':' || stop == ']',
    ensures
        until(ascii_lower(s), stop) == ascii_lower(until(s, stop)),
    decreases s.len(),
{
    if s.len() > 0 {
        assert(ascii_lower(s).drop_first() =~= ascii_lower(s.drop_first()));
        lemma_lower_until(s.drop_first(), stop);
        if s.first() != stop {
            assert(ascii_lower(until(s, stop)) =~= seq![ascii_lower_char(s.first())] + ascii_lower(
                until(s.drop_first(), stop),
            ));
        }
    }
    assert(until(ascii_lower(s), stop) =~= ascii_lower(until(s, stop)));
}

proof fn lemma_lower_twice(s: Seq<char>)
    ensures
        ascii_lower(ascii_lower(s)) == ascii_lower(s),
{
    assert(ascii_lower(ascii_lower(s)) =~= ascii_lower(s));
}

/// Nothing that is sent to the decoy site tells where a request came from; other headers pass as
/// they are, and an unencoded body is asked for.
pub proof fn law_forwarded_headers(fields: Fields, name: Seq<char>)
    ensures
        stripped_headers().contains(name) ==> !sanitized(fields).contains_key(name),
        name == "accept-encoding"@ ==> sanitized(fields).contains_key(name)
            && sanitized(fields)[name] == seq![encode_utf8("identity"@)],
        !stripped_headers().contains(name) && name != "accept-encoding"@ ==> {
            &&& sanitized(fields).contains_key(name) == fields.contains_key(name)
            &&& fields.contains_key(name) ==> sanitized(fields)[name] == fields[name]
        },
{
    lemma_accept_encoding_is_not_stripped();
}

/// Headers that were made ready to be sent on are not changed by doing it again.
pub proof fn law_sanitizing_twice(fields: Fields)
    ensures
        sanitized(sanitized(fields)) == sanitized(fields),
{
    lemma_accept_encoding_is_not_stripped();
    assert(sanitized(sanitized(fields)) =~= sanitized(fields));
}

proof fn lemma_accept_encoding_is_not_stripped()
    ensures
        !stripped_headers().contains("accept-encoding"@),
{
    reveal_strlit("accept-encoding");
    reveal_strlit("host");
    reveal_strlit("connection");
    reveal_strlit("content-length");
    reveal_strlit("proxy-authenticate");
    reveal_strlit("proxy-authorization");
    reveal_strlit("te");
    reveal_strlit("trailer");
    reveal_strlit("transfer-encoding");
    reveal_strlit("upgrade");
    reveal_strlit("keep-alive");
    reveal_strlit("cf-connecting-ip");
    reveal_strlit("cf-ipcountry");
    reveal_strlit("cf-ray");
    reveal_strlit("cf-visitor");
    reveal_strlit("cf-worker");
    reveal_strlit("cf-ew-via");
    reveal_strlit("cdn-loop");
    reveal_strlit("x-forwarded-for");
    reveal_strlit("x-forwarded-host");
    reveal_strlit("x-forwarded-proto");
    reveal_strlit("x-real-ip");
    let own = "accept-encoding"@;
    assert(own.len() == 15 && own[0] == 'a');
    assert forall|k: int| 0 <= k < stripped_headers().len() implies #[trigger] stripped_headers()[k]
        != own by {
        assert(stripped_headers()[k][0] != 'a');
    }
}

/// Of the answer of the decoy site the skipped headers are dropped; of the others every value is
/// sent back, in order, and none but a redirect is changed.
pub proof fn law_returned_headers(
    fields: Fields,
    fake_origin: Option<Seq<char>>,
    public_origin: Option<Seq<char>>,
    name: Seq<char>,
)
    ensures
        ({
            let sent = proxied(fields, fake_origin, public_origin);
            &&& skipped_headers().contains(name) ==> !sent.contains_key(name)
            &&& !skipped_headers().contains(name) ==> {
                &&& sent.contains_key(name) == fields.contains_key(name)
                &&& fields.contains_key(name) ==> sent[name].len() == fields[name].len()
                &&& fields.contains_key(name) && name != "location"@ ==> sent[name] == fields[name]
            }
        }),
{
    let sent = proxied(fields, fake_origin, public_origin);
    if fields.contains_key(name) && !skipped_headers().contains(name) && name != "location"@ {
        assert(sent[name] =~= fields[name]);
    }
}

/// A text that can be read back from a header.
pub open spec fn is_header_text(text: Seq<char>) -> bool {
    forall|i: int| 0 <= i < text.len() ==> ' ' <= #[trigger] text[i] <= '~' || text[i] == '\t'
}

/// What is written to a header as text is read back from it, and the other way round.
pub proof fn law_header_text_round_trip(text: Seq<char>, bytes: Seq<u8>)
    ensures
        is_header_text(text) ==> text_value(text) is Some && value_text(text_value(text)->0) == Some(
            text,
        ),
        value_text(bytes) is Some ==> is_header_text(value_text(bytes)->0) && text_value(
            value_text(bytes)->0,
        ) == Some(bytes),
{
    if is_header_text(text) {
        lemma_text_bytes(text);
        let made = encode_utf8(text);
        assert(made.map_values(|b: u8| b as char) =~= text);
    }
    if value_text(bytes) is Some {
        let read = value_text(bytes)->0;
        assert forall|i: int| 0 <= i < read.len() implies ' ' <= #[trigger] read[i] <= '~'
            || read[i] == '\t' by {
            assert(is_text_byte(bytes[i]));
        }
        lemma_text_bytes(read);
        assert(encode_utf8(read) =~= bytes);
    }
}

proof fn lemma_text_bytes(text: Seq<char>)
    requires
        is_header_text(text),
    ensures
        encode_utf8(text).len() == text.len(),
        forall|i: int|
            0 <= i < text.len() ==> #[trigger] encode_utf8(text)[i] == text[i] as u8
                && is_text_byte(encode_utf8(text)[i]) && is_value_byte(encode_utf8(text)[i]),
{
    assert(is_ascii_chars(text));
    is_ascii_chars_encode_utf8(text);
}

/// A redirect to a place under the origin of the decoy site leads to the same place under the
/// public origin.
pub proof fn law_redirect_is_moved(
    location: Seq<u8>,
    path: Seq<char>,
    fake_origin: Seq<char>,
    public_origin: Seq<char>,
)
    requires
        value_text(location) == Some(fake_origin + path),
        is_header_text(public_origin),
    ensures
        rewritten_location(location, Some(fake_origin), Some(public_origin)) is Some,
        value_text(rewritten_location(location, Some(fake_origin), Some(public_origin))->0) == Some(
            public_origin + path,
        ),
{
    let text = fake_origin + path;
    law_header_text_round_trip(text, location);
    assert(fake_origin =~= text.subrange(0, fake_origin.len() as int));
    assert(text.skip(fake_origin.len() as int) =~= path);
    let moved = public_origin + path;
    assert forall|i: int| 0 <= i < moved.len() implies ' ' <= #[trigger] moved[i] <= '~' || moved[i]
        == '\t' by {
        if i < public_origin.len() {
            assert(moved[i] == public_origin[i]);
        } else {
            assert(moved[i] == text[fake_origin.len() + (i - public_origin.len())]);
        }
    }
    law_header_text_round_trip(moved, location);
}

/// Moving a redirect to the public origin can be undone.
pub proof fn law_moved_redirect_leads_back(
    location: Seq<u8>,
    fake_origin: Seq<char>,
    public_origin: Seq<char>,
)
    requires
        is_header_text(fake_origin),
        is_header_text(public_origin),
        rewritten_location(location, Some(fake_origin), Some(public_origin)) is Some,
    ensures
        rewritten_location(
            rewritten_location(location, Some(fake_origin), Some(public_origin))->0,
            Some(public_origin),
            Some(fake_origin),
        ) == Some(location),
{
    let text = value_text(location)->0;
    let path = text.skip(fake_origin.len() as int);
    assert(text =~= fake_origin + path);
    law_redirect_is_moved(location, path, fake_origin, public_origin);
    let moved = rewritten_location(location, Some(fake_origin), Some(public_origin))->0;
    law_redirect_is_moved(moved, path, public_origin, fake_origin);
    let back = rewritten_location(moved, Some(public_origin), Some(fake_origin))->0;
    law_header_text_round_trip(text, location);
    law_header_text_round_trip(text, back);
}

/// A redirect to any other place is not touched.
pub proof fn law_other_redirects_stay(
    location: Seq<u8>,
    fake_origin: Option<Seq<char>>,
    public_origin: Option<Seq<char>>,
)
    requires
        fake_origin matches Some(fake) && value_text(location) matches Some(text)
            ==> !fake.is_prefix_of(text),
    ensures
        proxied_value("location"@, location, fake_origin, public_origin) == location,
{
}

/// A file takes the place of the old one only after it was written.
pub proof fn law_rename_follows_write(
    json_has_dir: bool,
    db_has_dir: bool,
    went: Seq<bool>,
)
    ensures
        step_after(json_has_dir, db_has_dir, went) == SaveStep::RenameJson ==> went.len() > 0
            && went.last() && step_after(json_has_dir, db_has_dir, went.drop_last())
            == SaveStep::WriteJson,
        step_after(json_has_dir, db_has_dir, went) == SaveStep::RenameDb ==> went.len() > 0
            && went.last() && step_after(json_has_dir, db_has_dir, went.drop_last())
            == SaveStep::WriteDb,
{
}

/// Once a step has failed, nothing more is done and the write counts as failed.
pub proof fn law_failure_is_final(
    json_has_dir: bool,
    db_has_dir: bool,
    went: Seq<bool>,
    i: int,
)
    requires
        0 <= i < went.len(),
        !went[i],
        step_after(json_has_dir, db_has_dir, went.take(i)) != SaveStep::Saved,
    ensures
        step_after(json_has_dir, db_has_dir, went) == SaveStep::Failed,
    decreases went.len(),
{
    if i == went.len() - 1 {
        assert(went.take(i) =~= went.drop_last());
    } else {
        assert(went.drop_last().take(i) =~= went.take(i));
        law_failure_is_final(json_has_dir, db_has_dir, went.drop_last(), i);
    }
}

/// A write without a failure ends in success, after one step for each directory and two for each
/// file.
pub proof fn law_save_succeeds(json_has_dir: bool, db_has_dir: bool, went: Seq<bool>)
    requires
        forall|i: int| 0 <= i < went.len() ==> went[i],
        went.len() == 4 + (if json_has_dir {
            1int
        } else {
            0
        }) + (if db_has_dir {
            1int
        } else {
            0
        }),
    ensures
        step_after(json_has_dir, db_has_dir, went) == SaveStep::Saved,
{
    reveal_with_fuel(step_after, 7);
}

} // verus!
