//! The registry of whitelisted address ranges: what is stored, and how each event changes it.

use crate::heap::{ExpireHeap, ExpireNode};
use crate::table::{
    lemma_listed_nodes, lemma_live_nodes, live_nodes, ExpiryTable,
};
use vstd::hash_set::StringHashSet;
use vstd::multiset::Multiset;
use vstd::prelude::*;
use vstd::seq_lib::*;

verus! {

/// One rule of the whitelist file: the address ranges that it admits.
pub struct SingBoxRule {
    pub source_ip_cidr: Vec<String>,
}

impl View for SingBoxRule {
    type V = Seq<Seq<char>>;

    open spec fn view(&self) -> Seq<Seq<char>> {
        self.source_ip_cidr.deep_view()
    }
}

impl Default for SingBoxRule {
    fn default() -> (rule: Self)
        ensures
            rule@ == Seq::<Seq<char>>::empty(),
    {
        let rule = SingBoxRule { source_ip_cidr: Vec::new() };
        assert(rule@ =~= Seq::<Seq<char>>::empty());
        rule
    }
}

/// The whitelist file as a whole.
pub struct SingBoxConfig {
    pub version: u32,
    pub rules: Vec<SingBoxRule>,
}

impl View for SingBoxConfig {
    type V = (u32, Seq<Seq<Seq<char>>>);

    open spec fn view(&self) -> (u32, Seq<Seq<Seq<char>>>) {
        (self.version, self.rules@.map_values(|rule: SingBoxRule| rule@))
    }
}

/// The state that outlives a restart: when each registration expires.
pub struct RustRegistryState {
    pub expires: ExpiryTable,
}

/// The whitelist to start from: the one that was read, or an empty one if none could be read.
pub fn load_singbox_config(parsed: Option<SingBoxConfig>) -> (config: SingBoxConfig)
    ensures
        match parsed {
            Some(read) => config == read,
            None => config@ == (1u32, seq![Seq::<Seq<char>>::empty()]),
        },
{
    match parsed {
        Some(config) => config,
        None => {
            let mut rules: Vec<SingBoxRule> = Vec::new();
            rules.push(SingBoxRule::default());
            let config = SingBoxConfig { version: 1, rules };
            assert(config@.1 =~= seq![Seq::<Seq<char>>::empty()]);
            config
        },
    }
}

/// The expiry times to start from: those that were read, or none if none could be read.
pub fn load_rust_state(parsed: Option<RustRegistryState>) -> (state: RustRegistryState)
    ensures
        match parsed {
            Some(read) => state == read,
            None => state.expires.wf() && state.expires@ == Map::<Seq<char>, u64>::empty(),
        },
{
    match parsed {
        Some(state) => state,
        None => RustRegistryState { expires: ExpiryTable::new() },
    }
}

/// A request to the registry.
pub enum RegistryCmd {
    /// Whitelist an address range for a number of seconds.
    Register(String, u64),
    /// Empty the whitelist.
    ClearAll,
}

/// Everything that the registry knows.
#[verifier::ext_equal]
pub struct RegistryModel {
    /// The format version of the whitelist file.
    pub version: u32,
    /// The address ranges of each rule; the first rule is the whitelist.
    pub rules: Seq<Seq<Seq<char>>>,
    /// When each registration expires.
    pub expires: Map<Seq<char>, u64>,
    /// The queued expiries, stale ones among them.
    pub pending: Multiset<(Seq<char>, u64)>,
    /// Whether there are changes that are not on disk yet.
    pub dirty: bool,
}

/// Whether a queue of `queued` nodes is so much longer than the `live` entries that it is rebuilt.
pub open spec fn queue_is_bloated(queued: nat, live: nat) -> bool {
    let bound = 4 * live + 1024;
    queued > (if bound > usize::MAX { usize::MAX as nat } else { bound })
}

impl RegistryModel {
    /// The whitelisted address ranges.
    pub open spec fn whitelist(self) -> Seq<Seq<char>> {
        if self.rules.len() == 0 {
            Seq::empty()
        } else {
            self.rules[0]
        }
    }

    /// `cidr` is registered and its time is over.
    pub open spec fn lapsed(self, now: u64, cidr: Seq<char>) -> bool {
        self.expires.contains_key(cidr) && self.expires[cidr] <= now
    }

    /// The expiry of every registration is queued.
    pub open spec fn covered(self) -> bool {
        forall|cidr: Seq<char>| #[trigger]
            self.expires.contains_key(cidr) ==> self.pending.contains((cidr, self.expires[cidr]))
    }

    /// The whitelist holds what is registered, and nothing else.
    pub open spec fn in_step(self) -> bool {
        forall|cidr: Seq<char>| #[trigger]
            self.whitelist().contains(cidr) <==> self.expires.contains_key(cidr)
    }

    /// The earliest queued expiry of `a` is no later than that of `b`.
    pub open spec fn queued_no_later(self, a: Seq<char>, b: Seq<char>) -> bool {
        exists|t: u64| #[trigger]
            self.pending.contains((a, t)) && forall|u: u64| #[trigger]
                self.pending.contains((b, u)) ==> t <= u
    }

    /// The registry after `cidr` was registered until `expire_at`.
    pub open spec fn registered(self, cidr: Seq<char>, expire_at: u64) -> Self {
        let expires = self.expires.insert(cidr, expire_at);
        let rules = if self.rules.len() == 0 {
            seq![Seq::<Seq<char>>::empty()]
        } else {
            self.rules
        };
        RegistryModel {
            version: self.version,
            rules: if rules[0].contains(cidr) {
                rules
            } else {
                rules.update(0, rules[0].push(cidr))
            },
            expires,
            pending: if queue_is_bloated(self.pending.len() + 1, expires.len()) {
                live_nodes(expires)
            } else {
                self.pending.insert((cidr, expire_at))
            },
            dirty: true,
        }
    }

    /// The registry after it was emptied.
    pub open spec fn cleared(self) -> Self {
        RegistryModel {
            rules: if self.rules.len() == 0 {
                self.rules
            } else {
                self.rules.update(0, Seq::empty())
            },
            expires: Map::empty(),
            pending: Multiset::empty(),
            ..self
        }
    }

    /// The registry after everything that lapsed by `now` was dropped.
    pub open spec fn expired(self, now: u64) -> Self {
        RegistryModel {
            rules: if self.rules.len() == 0 {
                self.rules
            } else {
                self.rules.update(0, self.rules[0].filter(|cidr: Seq<char>| !self.lapsed(now, cidr)))
            },
            expires: Map::new(
                |cidr: Seq<char>| self.expires.contains_key(cidr) && self.expires[cidr] > now,
                |cidr: Seq<char>| self.expires[cidr],
            ),
            pending: self.pending.filter(|node: (Seq<char>, u64)| node.1 > now),
            ..self
        }
    }

    /// The registry after an attempt to write it to disk.
    pub open spec fn saved(self, ok: bool) -> Self {
        RegistryModel { dirty: !ok, ..self }
    }
}

/// Whether the queue of expiries has grown so far past the live entries that it should be rebuilt.
pub fn should_rebuild_heap(heap_len: usize, live_len: usize) -> (due: bool)
    ensures
        due == queue_is_bloated(heap_len as nat, live_len as nat),
{
    let bound: usize = match live_len.checked_mul(4) {
        Some(product) => match product.checked_add(1024) {
            Some(sum) => sum,
            None => usize::MAX,
        },
        None => usize::MAX,
    };
    heap_len > bound
}

/// A queue that holds the expiry of every registration, and nothing stale.
pub fn rebuild_expire_heap(rust_state: &RustRegistryState) -> (heap: ExpireHeap)
    requires
        rust_state.expires.wf(),
    ensures
        heap.wf(),
        heap@ == live_nodes(rust_state.expires@),
{
    let entries = rust_state.expires.entries();
    let mut heap = ExpireHeap::new();
    let ghost views = entries@.map_values(|entry: ExpireNode| entry@);
    let mut i: usize = 0;
    proof {
        to_multiset_len(views.take(0));
        broadcast use vstd::multiset::group_multiset_axioms;

        assert(views.take(0).to_multiset() =~= Multiset::empty());
    }
    while i < entries.len()
        invariant
            i <= entries@.len(),
            views == entries@.map_values(|entry: ExpireNode| entry@),
            heap.wf(),
            heap@ == views.take(i as int).to_multiset(),
        decreases entries@.len() - i,
    {
        heap.push(ExpireNode { cidr: entries[i].cidr.clone(), expire_at: entries[i].expire_at });
        proof {
            assert(views.take(i + 1) =~= views.take(i as int).push(views[i as int]));
            to_multiset_build(views.take(i as int), views[i as int]);
        }
        i = i + 1;
    }
    proof {
        assert(views.take(i as int) =~= views);
        lemma_listed_nodes(entries@, rust_state.expires@);
    }
    heap
}

/// Admits every name but one.
spec fn other_than(name: Seq<char>) -> spec_fn(Seq<char>) -> bool {
    |c: Seq<char>| c != name
}

/// A list without one name.
spec fn dropping(list: Seq<Seq<char>>, name: Seq<char>) -> Seq<Seq<char>> {
    list.filter(other_than(name))
}

/// A list without some names.
spec fn thinned(list: Seq<Seq<char>>, gone: Set<Seq<char>>) -> Seq<Seq<char>> {
    list.filter(|c: Seq<char>| !gone.contains(c))
}

/// Dropping one more name from an already thinned list.
proof fn lemma_filter_one_more(list: Seq<Seq<char>>, gone: Set<Seq<char>>, name: Seq<char>)
    ensures
        dropping(thinned(list, gone), name) == thinned(list, gone.insert(name)),
    decreases list.len(),
{
    reveal(Seq::filter);
    if list.len() > 0 {
        lemma_filter_one_more(list.drop_last(), gone, name);
        let kept = thinned(list.drop_last(), gone);
        if !gone.contains(list.last()) {
            assert(kept.push(list.last()).drop_last() =~= kept);
        }
    }
}

/// The rules without some names of the first rule.
spec fn without(rules: Seq<Seq<Seq<char>>>, gone: Set<Seq<char>>) -> Seq<Seq<Seq<char>>> {
    if rules.len() == 0 {
        rules
    } else {
        rules.update(0, thinned(rules[0], gone))
    }
}

/// Dropping one more name from already thinned rules.
proof fn lemma_without_one_more(
    rules: Seq<Seq<Seq<char>>>,
    gone: Set<Seq<char>>,
    name: Seq<char>,
)
    ensures
        rules.len() > 0 ==> without(rules, gone).update(
            0,
            dropping(without(rules, gone)[0], name),
        ) == without(rules, gone.insert(name)),
{
    if rules.len() > 0 {
        lemma_filter_one_more(rules[0], gone, name);
        assert(without(rules, gone).update(
            0,
            dropping(without(rules, gone)[0], name),
        ) =~= without(rules, gone.insert(name)));
    }
}

/// Nothing is dropped where there is nothing to drop.
proof fn lemma_filter_all(list: Seq<Seq<char>>, gone: Set<Seq<char>>)
    requires
        forall|c: Seq<char>| !gone.contains(c),
    ensures
        thinned(list, gone) == list,
    decreases list.len(),
{
    reveal(Seq::filter);
    if list.len() > 0 {
        lemma_filter_all(list.drop_last(), gone);
        assert(list.drop_last().push(list.last()) =~= list);
    }
}

/// The names that are left when one name is dropped.
proof fn lemma_filter_to_set(list: Seq<Seq<char>>, name: Seq<char>)
    ensures
        dropping(list, name).to_set() == list.to_set().remove(name),
    decreases list.len(),
{
    let keep = other_than(name);
    broadcast use group_filter_ensures;

    assert forall|c: Seq<char>| list.filter(keep).contains(c) <==> list.contains(c) && c != name by {
        if list.filter(keep).contains(c) {
            let i = choose|i: int| 0 <= i < list.filter(keep).len() && list.filter(keep)[i] == c;
            assert(keep(list.filter(keep)[i]));
            lemma_filter_from(list, keep, c);
        }
        if list.contains(c) && c != name {
            let i = choose|i: int| 0 <= i < list.len() && list[i] == c;
            assert(list.filter(keep).contains(list[i]));
        }
    }
    assert(dropping(list, name).to_set() =~= list.to_set().remove(name));
}

/// What a filter keeps was there before.
proof fn lemma_filter_from(list: Seq<Seq<char>>, keep: spec_fn(Seq<char>) -> bool, name: Seq<char>)
    requires
        list.filter(keep).contains(name),
    ensures
        list.contains(name),
    decreases list.len(),
{
    reveal(Seq::filter);
    if list.len() > 0 {
        let i = choose|i: int| 0 <= i < list.filter(keep).len() && list.filter(keep)[i] == name;
        let rest = list.drop_last().filter(keep);
        if i < rest.len() {
            assert(rest[i] == name);
            lemma_filter_from(list.drop_last(), keep, name);
        }
    }
}

/// Takes every occurrence of a name out of a list.
fn remove_name(list: &mut Vec<String>, name: &String)
    ensures
        final(list).deep_view() == dropping(old(list).deep_view(), name@),
{
    let ghost before = list.deep_view();
    let ghost keep = other_than(name@);
    let ghost mut seen: int = 0;
    let mut i: usize = 0;
    proof {
        reveal(Seq::filter);
    }
    while i < list.len()
        invariant
            keep == other_than(name@),
            i <= list@.len(),
            0 <= seen <= before.len(),
            before.len() - seen == list@.len() - i,
            list.deep_view().take(i as int) == before.take(seen).filter(keep),
            list.deep_view().skip(i as int) == before.skip(seen),
        decreases list@.len() - i,
    {
        let ghost prior = list.deep_view();
        proof {
            reveal(Seq::filter);
            assert(prior.skip(i as int)[0] == before.skip(seen)[0]);
            assert(before.take(seen + 1).drop_last() =~= before.take(seen));
        }
        if list[i].eq(name) {
            list.remove(i);
            proof {
                assert(list.deep_view() =~= prior.remove(i as int));
                assert(list.deep_view().take(i as int) =~= prior.take(i as int));
                assert(list.deep_view().skip(i as int) =~= prior.skip(i as int).skip(1));
                assert(before.skip(seen + 1) =~= before.skip(seen).skip(1));
            }
        } else {
            i = i + 1;
            proof {
                assert(prior.take(i as int) =~= prior.take(i - 1).push(prior[i - 1]));
                assert(prior.skip(i as int) =~= prior.skip(i - 1).skip(1));
                assert(before.skip(seen + 1) =~= before.skip(seen).skip(1));
            }
        }
        proof {
            seen = seen + 1;
        }
    }
    assert(list.deep_view().take(i as int) =~= list.deep_view());
    assert(before.take(seen) =~= before);
}

/// What is to be done after a tick.
pub struct TickOutcome {
    /// The address ranges that were dropped.
    pub expired: Vec<String>,
    /// Whether the registry has to be written to disk.
    pub persist: bool,
}

/// The registry in memory.
pub struct Registry {
    sb_config: SingBoxConfig,
    rust_state: RustRegistryState,
    ip_set: StringHashSet,
    heap: ExpireHeap,
    is_dirty: bool,
}

impl View for Registry {
    type V = RegistryModel;

    closed spec fn view(&self) -> RegistryModel {
        RegistryModel {
            version: self.sb_config@.0,
            rules: self.sb_config@.1,
            expires: self.rust_state.expires@,
            pending: self.heap@,
            dirty: self.is_dirty,
        }
    }
}

impl Registry {
    /// The parts of the registry agree with each other.
    pub closed spec fn wf(&self) -> bool {
        &&& self.rust_state.expires.wf()
        &&& self.heap.wf()
        &&& self.ip_set@ == self@.whitelist().to_set()
        &&& self@.covered()
    }

    /// In a registry whose parts agree, the expiry of every registration is queued.
    pub proof fn lemma_wf(&self)
        requires
            self.wf(),
        ensures
            self@.covered(),
            self@.expires.dom().finite(),
    {
        self.rust_state.expires.lemma_finite();
    }

    /// Starts from what was read from disk.
    pub fn new(sb_config: SingBoxConfig, rust_state: RustRegistryState) -> (registry: Self)
        requires
            rust_state.expires.wf(),
        ensures
            registry.wf(),
            registry@ == (RegistryModel {
                version: sb_config@.0,
                rules: sb_config@.1,
                expires: rust_state.expires@,
                pending: live_nodes(rust_state.expires@),
                dirty: false,
            }),
    {
        let mut ip_set = StringHashSet::new();
        let ghost list = if sb_config@.1.len() == 0 {
            Seq::<Seq<char>>::empty()
        } else {
            sb_config@.1[0]
        };
        if sb_config.rules.len() > 0 {
            let names = &sb_config.rules[0].source_ip_cidr;
            let mut i: usize = 0;
            assert(names.deep_view() == list);
            assert(list.take(0).to_set() =~= Set::empty());
            while i < names.len()
                invariant
                    i <= names@.len(),
                    names.deep_view() == list,
                    ip_set@ == list.take(i as int).to_set(),
                decreases names@.len() - i,
            {
                ip_set.insert(names[i].clone());
                proof {
                    assert(list.take(i + 1) =~= list.take(i as int).push(list[i as int]));
                    lemma_push_to_set(list.take(i as int), list[i as int]);
                }
                i = i + 1;
            }
            assert(list.take(i as int) =~= list);
        } else {
            assert(list.to_set() =~= Set::empty());
        }
        let heap = rebuild_expire_heap(&rust_state);
        let registry = Registry { sb_config, rust_state, ip_set, heap, is_dirty: false };
        proof {
            registry.rust_state.expires.lemma_finite();
            assert forall|cidr: Seq<char>| #[trigger]
                registry@.expires.contains_key(cidr) implies registry@.pending.contains(
                (cidr, registry@.expires[cidr]),
            ) by {
                lemma_live_nodes(registry@.expires, (cidr, registry@.expires[cidr]));
            }
        }
        registry
    }

    /// The whitelist, as it is to be written to disk.
    pub fn sb_config(&self) -> (config: &SingBoxConfig)
        ensures
            config@ == (self@.version, self@.rules),
    {
        &self.sb_config
    }

    /// The expiry times, as they are to be written to disk.
    pub fn rust_state(&self) -> (state: &RustRegistryState)
        requires
            self.wf(),
        ensures
            state.expires.wf(),
            state.expires@ == self@.expires,
    {
        &self.rust_state
    }

    /// The number of whitelisted address ranges.
    pub fn whitelist_len(&self) -> (len: usize)
        ensures
            len == self@.whitelist().len(),
    {
        if self.sb_config.rules.len() == 0 {
            0
        } else {
            self.sb_config.rules[0].source_ip_cidr.len()
        }
    }

    /// Whether there are changes that are not on disk yet.
    pub fn is_dirty(&self) -> (dirty: bool)
        ensures
            dirty == self@.dirty,
    {
        self.is_dirty
    }

    /// Whitelists an address range for a number of seconds from `now` on.
    pub fn register(&mut self, cidr: String, duration_secs: u64, now: u64)
        requires
            old(self).wf(),
            now + duration_secs <= u64::MAX,
        ensures
            final(self).wf(),
            final(self)@ == old(self)@.registered(cidr@, (now + duration_secs) as u64),
    {
        let expire_at: u64 = now + duration_secs;
        self.rust_state.expires.insert(cidr.clone(), expire_at);
        if self.sb_config.rules.len() == 0 {
            self.sb_config.rules.push(SingBoxRule::default());
        }
        let ghost rules = self.sb_config@.1;
        assert(rules =~= if old(self)@.rules.len() == 0 {
            seq![Seq::<Seq<char>>::empty()]
        } else {
            old(self)@.rules
        });
        assert(self.ip_set@ =~= rules[0].to_set());
        if self.ip_set.insert(cidr.clone()) {
            self.sb_config.rules[0].source_ip_cidr.push(cidr.clone());
            proof {
                lemma_push_to_set(rules[0], cidr@);
                assert(self.sb_config@.1[0] =~= rules[0].push(cidr@));
                assert(self.sb_config@.1 =~= rules.update(0, rules[0].push(cidr@)));
            }
        } else {
            assert(self.ip_set@ =~= rules[0].to_set());
        }
        let ghost rules = self.sb_config@.1;
        let ghost pending = self.heap@;
        let ghost expires = self.rust_state.expires@;
        self.heap.push(ExpireNode { cidr, expire_at });
        if should_rebuild_heap(self.heap.len(), self.rust_state.expires.len()) {
            self.heap = rebuild_expire_heap(&self.rust_state);
        }
        self.is_dirty = true;
        proof {
            broadcast use {
                vstd::multiset::group_multiset_axioms,
                vstd::multiset::group_multiset_properties,
            };

            self.rust_state.expires.lemma_finite();
            assert forall|c: Seq<char>| #[trigger]
                self@.expires.contains_key(c) implies self@.pending.contains(
                (c, self@.expires[c]),
            ) by {
                lemma_live_nodes(self@.expires, (c, self@.expires[c]));
                assert(old(self)@.expires.contains_key(c) || c == cidr@);
            }
        }
    }

    /// Empties the whitelist. The result has to be written to disk at once.
    pub fn clear_all(&mut self)
        requires
            old(self).wf(),
        ensures
            final(self).wf(),
            final(self)@ == old(self)@.cleared(),
    {
        self.rust_state.expires.clear();
        self.ip_set.clear();
        if self.sb_config.rules.len() > 0 {
            self.sb_config.rules[0].source_ip_cidr.clear();
            assert(self.sb_config@.1[0] =~= Seq::<Seq<char>>::empty());
            assert(self.sb_config@.1 =~= old(self)@.rules.update(0, Seq::empty()));
        }
        self.heap.clear();
        assert(self@.whitelist().to_set() =~= Set::empty());
    }

    /// Carries out a command at the time `now`. Says whether the registry has to be written to
    /// disk at once; otherwise the next tick sees to it.
    pub fn handle_command(&mut self, cmd: RegistryCmd, now: u64) -> (persist: bool)
        requires
            old(self).wf(),
            cmd matches RegistryCmd::Register(_, duration_secs) ==> now + duration_secs <= u64::MAX,
        ensures
            final(self).wf(),
            match cmd {
                RegistryCmd::Register(cidr, duration_secs) => {
                    &&& final(self)@ == old(self)@.registered(cidr@, (now + duration_secs) as u64)
                    &&& !persist
                },
                RegistryCmd::ClearAll => final(self)@ == old(self)@.cleared() && persist,
            },
    {
        match cmd {
            RegistryCmd::Register(cidr, duration_secs) => {
                self.register(cidr, duration_secs, now);
                false
            },
            RegistryCmd::ClearAll => {
                self.clear_all();
                true
            },
        }
    }

    /// Drops every registration whose time is over. They are reported in the order of their
    /// earliest queued expiries.
    pub fn tick(&mut self, now: u64) -> (outcome: TickOutcome)
        requires
            old(self).wf(),
        ensures
            final(self).wf(),
            final(self)@ == old(self)@.expired(now),
            outcome.expired.deep_view().no_duplicates(),
            forall|cidr: Seq<char>|
                outcome.expired.deep_view().contains(cidr) <==> #[trigger] old(self)@.lapsed(
                    now,
                    cidr,
                ),
            forall|i: int, j: int|
                0 <= i < j < outcome.expired@.len() ==> #[trigger] old(self)@.queued_no_later(
                    outcome.expired.deep_view()[i],
                    outcome.expired.deep_view()[j],
                ),
            outcome.persist <==> old(self)@.dirty || exists|cidr: Seq<char>| #[trigger]
                old(self)@.lapsed(now, cidr),
    {
        let mut expired: Vec<String> = Vec::new();
        let ghost start = self@;
        let ghost mut gone: Set<Seq<char>> = Set::empty();
        let ghost mut times: Seq<u64> = Seq::empty();
        proof {
            assert(start.expires.remove_keys(gone) =~= start.expires);
            lemma_filter_all(start.whitelist(), gone);
            if start.rules.len() > 0 {
                assert(start.rules.update(0, start.whitelist()) =~= start.rules);
            }
            assert(expired.deep_view().to_set() =~= gone);
        }
        loop
            invariant
                self.wf(),
                self@.version == start.version,
                self@.dirty == start.dirty,
                self@.expires == start.expires.remove_keys(gone),
                self@.rules == without(start.rules, gone),
                self@.pending.subset_of(start.pending),
                forall|node: (Seq<char>, u64)|
                    node.1 > now ==> #[trigger] self@.pending.count(node) == start.pending.count(
                        node,
                    ),
                forall|cidr: Seq<char>| #[trigger] gone.contains(cidr) ==> start.lapsed(now, cidr),
                expired.deep_view().no_duplicates(),
                expired.deep_view().to_set() == gone,
                times.len() == expired@.len(),
                forall|i: int|
                    0 <= i < times.len() ==> start.pending.contains(
                        (expired.deep_view()[i], #[trigger] times[i]),
                    ),
                forall|i: int, node: (Seq<char>, u64)|
                    0 <= i < times.len() && #[trigger] self@.pending.contains(node)
                        ==> #[trigger] times[i] <= node.1,
                forall|i: int, j: int, u: u64|
                    0 <= i < j < times.len() && #[trigger] start.pending.contains(
                        (expired.deep_view()[j], u),
                    ) ==> #[trigger] times[i] <= u,
                forall|node: (Seq<char>, u64)| #[trigger]
                    start.pending.contains(node) && start.lapsed(now, node.0) && !gone.contains(
                        node.0,
                    ) ==> self@.pending.contains(node),
            ensures
                forall|node: (Seq<char>, u64)| #[trigger]
                    self@.pending.contains(node) ==> node.1 > now,
            decreases self@.pending.len(),
        {
            let due: bool = match self.heap.peek() {
                Some(node) => node.expire_at <= now,
                None => false,
            };
            if !due {
                assert forall|node: (Seq<char>, u64)| #[trigger]
                    self@.pending.contains(node) implies node.1 > now by {
                    broadcast use vstd::multiset::group_multiset_axioms;

                }
                break;
            }
            let ghost before = self@;
            match self.heap.pop() {
                Some(node) => {
                    let current: Option<u64> = self.rust_state.expires.get(node.cidr.as_str());
                    let over: bool = match current {
                        Some(real_expire) => real_expire <= now,
                        None => false,
                    };
                    proof {
                        broadcast use {
                            vstd::multiset::group_multiset_axioms,
                            vstd::multiset::group_multiset_properties,
                        };

                        assert(self.heap@ == before.pending.remove(node@));
                        assert forall|other: (Seq<char>, u64)| #[trigger]
                            self.heap@.contains(other) implies before.pending.contains(other)
                            && node.expire_at <= other.1 by {
                            assert(before.pending.remove(node@).count(other) > 0);
                        }
                    }
                    if over {
                        self.rust_state.expires.remove(node.cidr.as_str());
                        if self.sb_config.rules.len() > 0 {
                            self.ip_set.remove(node.cidr.as_str());
                            remove_name(&mut self.sb_config.rules[0].source_ip_cidr, &node.cidr);
                        }
                        proof {
                            lemma_without_one_more(start.rules, gone, node.cidr@);
                            lemma_filter_to_set(before.whitelist(), node.cidr@);
                            lemma_push_to_set(expired.deep_view(), node.cidr@);
                            if before.rules.len() > 0 {
                                let rest = dropping(before.rules[0], node.cidr@);
                                assert(self@.rules[0] == rest);
                                assert(self@.rules =~= before.rules.update(0, rest));
                                assert(self.ip_set@ == self@.whitelist().to_set());
                            } else {
                                assert(self@.whitelist() =~= before.whitelist());
                            }
                            assert(!gone.contains(node.cidr@));
                            gone = gone.insert(node.cidr@);
                            times = times.push(node.expire_at);
                            assert(self@.expires =~= start.expires.remove_keys(gone));
                            assert(self@.covered());
                        }
                        let ghost listed = expired.deep_view();
                        expired.push(node.cidr);
                        assert(expired.deep_view() =~= listed.push(node.cidr@));
                    }
                },
                None => {},
            }
        }
        let persist: bool = expired.len() > 0 || self.is_dirty;
        proof {
            broadcast use vstd::multiset::group_multiset_axioms;

            assert forall|cidr: Seq<char>| start.lapsed(now, cidr) implies gone.contains(cidr) by {
                if !gone.contains(cidr) {
                    assert(self@.expires.contains_key(cidr));
                    assert(self@.pending.contains((cidr, self@.expires[cidr])));
                }
            }
            assert(self@.expires =~= start.expired(now).expires);
            let later = |node: (Seq<char>, u64)| node.1 > now;
            assert forall|node: (Seq<char>, u64)| #[trigger]
                self@.pending.count(node) == start.pending.filter(later).count(node) by {
                assert(self@.pending.contains(node) ==> later(node));
            }
            assert(self@.pending =~= start.expired(now).pending);
            assert((|c: Seq<char>| !gone.contains(c)) =~= (|c: Seq<char>| !start.lapsed(now, c)));
            assert(self@ =~= start.expired(now));
            assert forall|cidr: Seq<char>|
                expired.deep_view().contains(cidr) <==> #[trigger] start.lapsed(now, cidr) by {
                assert(expired.deep_view().to_set().contains(cidr) <==> gone.contains(cidr));
            }
            assert forall|i: int, j: int|
                0 <= i < j < expired@.len() implies #[trigger] start.queued_no_later(
                expired.deep_view()[i],
                expired.deep_view()[j],
            ) by {
                assert(start.pending.contains((expired.deep_view()[i], times[i])));
            }
            if expired@.len() > 0 {
                assert(expired.deep_view().contains(expired.deep_view()[0]));
                assert(start.lapsed(now, expired.deep_view()[0]));
            }
        }
        TickOutcome { expired, persist }
    }

    /// Records whether an attempt to write the registry to disk succeeded.
    pub fn persisted(&mut self, ok: bool)
        requires
            old(self).wf(),
        ensures
            final(self).wf(),
            final(self)@ == old(self)@.saved(ok),
    {
        self.is_dirty = !ok;
        assert(self@.whitelist() == old(self)@.whitelist());
        assert(self@.expires == old(self)@.expires);
        assert(self@.pending == old(self)@.pending);
        assert(self@.covered());
    }
}

proof fn lemma_push_to_set(list: Seq<Seq<char>>, name: Seq<char>)
    ensures
        list.push(name).to_set() == list.to_set().insert(name),
{
    let longer = list.push(name);
    assert forall|c: Seq<char>| longer.contains(c) <==> list.contains(c) || c == name by {
        if list.contains(c) {
            let i = choose|i: int| 0 <= i < list.len() && list[i] == c;
            assert(longer[i] == c);
        }
        if c == name {
            assert(longer[list.len() as int] == c);
        }
    }
    assert(longer.to_set() =~= list.to_set().insert(name));
}

} // verus!
