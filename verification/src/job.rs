//! Postings, and the engine that tells the new ones from those already met.

use vstd::prelude::*;
use crate::error::PollError;
use crate::feed::{
    entries_view, feed_address, read_feed, readable_items, search_url, EntryView, RawEntry,
};
use crate::markup::{attribute_in, extract_attribute, fragment_markup, normalize_markup};
use crate::seen::{
    admitted, bounded, lemma_admitted_bounded, lemma_admitted_keeps,
    lemma_known_offer_keeps_identities, max_capacity, SeenSet,
};

verus! {

/// One posting in its canonical form. `link` is the identity by which a
/// posting is recognised from one poll to the next; `country` is the value
/// found under the label in `description`, empty where there is none.
#[derive(Debug)]
pub struct JobListing {
    pub link: String,
    pub title: String,
    pub description: String,
    pub country: String,
}

/// A posting by the characters of its fields.
pub struct ListingView {
    pub link: Seq<char>,
    pub title: Seq<char>,
    pub description: Seq<char>,
    pub country: Seq<char>,
}

impl View for JobListing {
    type V = ListingView;

    open spec fn view(&self) -> ListingView {
        ListingView {
            link: self.link@,
            title: self.title@,
            description: self.description@,
            country: self.country@,
        }
    }
}

/// Postings, each by its view.
pub open spec fn listings_view(listings: Seq<JobListing>) -> Seq<ListingView> {
    listings.map_values(|l: JobListing| l@)
}

/// A field's text, empty where the field is absent.
pub open spec fn or_empty(text: Option<Seq<char>>) -> Seq<char> {
    match text {
        None => Seq::<char>::empty(),
        Some(t) => t,
    }
}

/// The identity of an entry: its link.
pub open spec fn identity_of(entry: EntryView) -> Seq<char> {
    or_empty(entry.link)
}

/// The posting that an entry normalises to.
pub open spec fn listing_of(entry: EntryView) -> ListingView {
    let description = fragment_markup(or_empty(entry.description));
    ListingView {
        link: identity_of(entry),
        title: or_empty(entry.title),
        description,
        country: or_empty(attribute_in(description)),
    }
}

/// What a memory holds after the identities of `entries` were offered to it
/// one by one, in order.
pub open spec fn seen_after(order: Seq<Seq<char>>, limit: nat, entries: Seq<EntryView>) -> Seq<
    Seq<char>,
>
    decreases entries.len(),
{
    if entries.len() == 0 {
        order
    } else {
        admitted(seen_after(order, limit, entries.drop_last()), limit, identity_of(entries.last()))
    }
}

/// The postings of those entries whose identity the memory did not hold at
/// the moment it was offered, in the order of `entries`.
pub open spec fn fresh_listings(order: Seq<Seq<char>>, limit: nat, entries: Seq<EntryView>) -> Seq<
    ListingView,
>
    decreases entries.len(),
{
    if entries.len() == 0 {
        Seq::<ListingView>::empty()
    } else {
        let before = fresh_listings(order, limit, entries.drop_last());
        if seen_after(order, limit, entries.drop_last()).contains(identity_of(entries.last())) {
            before
        } else {
            before.push(listing_of(entries.last()))
        }
    }
}

/// The state of an engine: what it asks for, what it has met, and whether it
/// still waits for its first successful cycle.
pub struct ManagerView {
    pub query: Seq<char>,
    pub paging: nat,
    pub seen: Seq<Seq<char>>,
    pub capacity: nat,
    pub fresh: bool,
}

/// The state after a successful cycle over `entries`.
pub open spec fn after_cycle(state: ManagerView, entries: Seq<EntryView>) -> ManagerView {
    ManagerView {
        seen: seen_after(state.seen, state.capacity, entries),
        fresh: false,
        ..state
    }
}

/// What a successful cycle over `entries` reports: nothing on the first
/// one, afterwards the postings that were new.
pub open spec fn reported(state: ManagerView, entries: Seq<EntryView>) -> Seq<ListingView> {
    if state.fresh {
        Seq::<ListingView>::empty()
    } else {
        fresh_listings(state.seen, state.capacity, entries)
    }
}

/// However many identities are offered to a memory within its bounds, it
/// stays within them: it never holds more than its capacity, nor an identity
/// twice, and it grows by one identity for each entry at most.
pub proof fn lemma_seen_after_bounded(order: Seq<Seq<char>>, limit: nat, entries: Seq<EntryView>)
    requires
        bounded(order, limit),
    ensures
        bounded(seen_after(order, limit, entries), limit),
        seen_after(order, limit, entries).len() <= limit,
        seen_after(order, limit, entries).len() <= order.len() + entries.len(),
    decreases entries.len(),
{
    if entries.len() > 0 {
        lemma_seen_after_bounded(order, limit, entries.drop_last());
        lemma_admitted_bounded(
            seen_after(order, limit, entries.drop_last()),
            limit,
            identity_of(entries.last()),
        );
    }
}

/// Every reported posting belongs to one of the entries.
pub proof fn lemma_fresh_listings_from_entries(
    order: Seq<Seq<char>>,
    limit: nat,
    entries: Seq<EntryView>,
    i: int,
)
    requires
        0 <= i < fresh_listings(order, limit, entries).len(),
    ensures
        exists|k: int|
            0 <= k < entries.len() && fresh_listings(order, limit, entries)[i] == listing_of(
                #[trigger] entries[k],
            ) && !seen_after(order, limit, entries.take(k)).contains(identity_of(entries[k])),
    decreases entries.len(),
{
    let rest = entries.drop_last();
    let before = fresh_listings(order, limit, rest);
    if i < before.len() {
        lemma_fresh_listings_from_entries(order, limit, rest, i);
        let k = choose|k: int|
            0 <= k < rest.len() && before[i] == listing_of(#[trigger] rest[k]) && !seen_after(
                order,
                limit,
                rest.take(k),
            ).contains(identity_of(rest[k]));
        assert(rest.take(k) =~= entries.take(k));
        assert(entries[k] == rest[k]);
    } else {
        let k = entries.len() - 1;
        assert(entries.take(k) =~= rest);
        assert(entries[k] == entries.last());
    }
}

/// An identity that the memory holds whenever an entry is examined is not
/// reported: no posting of the cycle carries it.
pub proof fn lemma_held_identity_not_reported(
    order: Seq<Seq<char>>,
    limit: nat,
    entries: Seq<EntryView>,
    x: Seq<char>,
)
    requires
        forall|k: int|
            0 <= k < entries.len() ==> #[trigger] seen_after(order, limit, entries.take(k)).contains(
                x,
            ),
    ensures
        forall|i: int|
            0 <= i < fresh_listings(order, limit, entries).len() ==> (#[trigger] fresh_listings(
                order,
                limit,
                entries,
            )[i]).link != x,
{
    assert forall|i: int| 0 <= i < fresh_listings(order, limit, entries).len() implies (
    #[trigger] fresh_listings(order, limit, entries)[i]).link != x by {
        lemma_fresh_listings_from_entries(order, limit, entries, i);
        let k = choose|k: int|
            0 <= k < entries.len() && fresh_listings(order, limit, entries)[i] == listing_of(
                #[trigger] entries[k],
            ) && !seen_after(order, limit, entries.take(k)).contains(identity_of(entries[k]));
        assert(seen_after(order, limit, entries.take(k)).contains(x));
    }
}

/// While there is room for every entry of a cycle, nothing is evicted: an
/// identity that the memory held before the cycle is held after it.
pub proof fn lemma_room_keeps_identity(
    order: Seq<Seq<char>>,
    limit: nat,
    entries: Seq<EntryView>,
    x: Seq<char>,
)
    requires
        bounded(order, limit),
        order.contains(x),
        order.len() + entries.len() <= limit,
    ensures
        seen_after(order, limit, entries).contains(x),
    decreases entries.len(),
{
    if entries.len() > 0 {
        let rest = entries.drop_last();
        lemma_room_keeps_identity(order, limit, rest, x);
        lemma_seen_after_bounded(order, limit, rest);
        lemma_admitted_keeps(seen_after(order, limit, rest), limit, identity_of(entries.last()), x);
    }
}

/// While there is room for every entry of a cycle, an identity that was
/// held before the cycle is not reported by it.
pub proof fn lemma_known_identity_not_reported(
    order: Seq<Seq<char>>,
    limit: nat,
    entries: Seq<EntryView>,
    x: Seq<char>,
)
    requires
        bounded(order, limit),
        order.contains(x),
        order.len() + entries.len() <= limit,
    ensures
        forall|i: int|
            0 <= i < fresh_listings(order, limit, entries).len() ==> (#[trigger] fresh_listings(
                order,
                limit,
                entries,
            )[i]).link != x,
{
    assert forall|k: int| 0 <= k < entries.len() implies #[trigger] seen_after(
        order,
        limit,
        entries.take(k),
    ).contains(x) by {
        lemma_room_keeps_identity(order, limit, entries.take(k), x);
    }
    lemma_held_identity_not_reported(order, limit, entries, x);
}

/// While there is room for every entry of a cycle, the identity of each
/// entry is held after the cycle.
pub proof fn lemma_admitted_identity_held(
    order: Seq<Seq<char>>,
    limit: nat,
    entries: Seq<EntryView>,
    j: int,
)
    requires
        bounded(order, limit),
        order.len() + entries.len() <= limit,
        0 <= j < entries.len(),
    ensures
        seen_after(order, limit, entries).contains(identity_of(entries[j])),
    decreases entries.len(),
{
    let rest = entries.drop_last();
    let prev = seen_after(order, limit, rest);
    lemma_seen_after_bounded(order, limit, rest);
    lemma_admitted_bounded(prev, limit, identity_of(entries.last()));
    if j == entries.len() - 1 {
        let next = seen_after(order, limit, entries);
        assert(next[next.len() - 1] == identity_of(entries[j]));
    } else {
        lemma_admitted_identity_held(order, limit, rest, j);
        assert(rest[j] == entries[j]);
        lemma_admitted_keeps(prev, limit, identity_of(entries.last()), identity_of(entries[j]));
    }
}

/// Offering identities that are all held evicts nothing and reports nothing.
pub proof fn lemma_known_entries_report_nothing(
    order: Seq<Seq<char>>,
    limit: nat,
    entries: Seq<EntryView>,
)
    requires
        bounded(order, limit),
        forall|j: int| 0 <= j < entries.len() ==> order.contains(identity_of(#[trigger] entries[j])),
    ensures
        forall|y: Seq<char>|
            order.contains(y) ==> #[trigger] seen_after(order, limit, entries).contains(y),
        fresh_listings(order, limit, entries) == Seq::<ListingView>::empty(),
    decreases entries.len(),
{
    if entries.len() > 0 {
        let rest = entries.drop_last();
        let prev = seen_after(order, limit, rest);
        let id = identity_of(entries.last());
        assert forall|j: int| 0 <= j < rest.len() implies order.contains(
            identity_of(#[trigger] rest[j]),
        ) by {
            assert(rest[j] == entries[j]);
        }
        lemma_known_entries_report_nothing(order, limit, rest);
        lemma_seen_after_bounded(order, limit, rest);
        assert(order.contains(identity_of(entries[entries.len() - 1])));
        assert(prev.contains(id));
        assert forall|y: Seq<char>| order.contains(y) implies #[trigger] seen_after(
            order,
            limit,
            entries,
        ).contains(y) by {
            assert(prev.contains(y));
            lemma_admitted_keeps(prev, limit, id, y);
        }
    }
}

/// The state after several successful cycles, one after the other.
pub open spec fn after_cycles(state: ManagerView, cycles: Seq<Seq<EntryView>>) -> ManagerView
    decreases cycles.len(),
{
    if cycles.len() == 0 {
        state
    } else {
        after_cycle(after_cycles(state, cycles.drop_last()), cycles.last())
    }
}

/// The number of entries that several cycles bring together.
pub open spec fn total_entries(cycles: Seq<Seq<EntryView>>) -> nat
    decreases cycles.len(),
{
    if cycles.len() == 0 {
        0
    } else {
        total_entries(cycles.drop_last()) + cycles.last().len()
    }
}

/// An identity that the engine holds whenever a cycle examines an entry is
/// not reported by that cycle.
pub proof fn lemma_no_repeat_without_eviction(
    state: ManagerView,
    entries: Seq<EntryView>,
    x: Seq<char>,
)
    requires
        forall|k: int|
            0 <= k < entries.len() ==> #[trigger] seen_after(
                state.seen,
                state.capacity,
                entries.take(k),
            ).contains(x),
    ensures
        forall|i: int|
            0 <= i < reported(state, entries).len() ==> (#[trigger] reported(state, entries)[i]).link
                != x,
{
    lemma_held_identity_not_reported(state.seen, state.capacity, entries, x);
}

/// The first cycles of a run bring no more entries than the whole run, less
/// the cycle that follows them.
pub proof fn lemma_total_entries_of_prefix(cycles: Seq<Seq<EntryView>>, j: int)
    requires
        0 <= j < cycles.len(),
    ensures
        total_entries(cycles.take(j)) + cycles[j].len() <= total_entries(cycles),
    decreases cycles.len(),
{
    let rest = cycles.drop_last();
    if j == cycles.len() - 1 {
        assert(cycles.take(j) =~= rest);
    } else {
        lemma_total_entries_of_prefix(rest, j);
        assert(rest.take(j) =~= cycles.take(j));
        assert(rest[j] == cycles[j]);
    }
}

/// While there is room for every entry of every cycle, nothing is evicted:
/// an identity held before the cycles is held after them, and the engine has
/// grown by one identity for each entry at most.
pub proof fn lemma_cycles_keep_identity(
    state: ManagerView,
    cycles: Seq<Seq<EntryView>>,
    x: Seq<char>,
)
    requires
        bounded(state.seen, state.capacity),
        state.seen.contains(x),
        state.seen.len() + total_entries(cycles) <= state.capacity,
    ensures
        after_cycles(state, cycles).capacity == state.capacity,
        bounded(after_cycles(state, cycles).seen, state.capacity),
        after_cycles(state, cycles).seen.contains(x),
        after_cycles(state, cycles).seen.len() <= state.seen.len() + total_entries(cycles),
    decreases cycles.len(),
{
    if cycles.len() > 0 {
        let before = after_cycles(state, cycles.drop_last());
        lemma_cycles_keep_identity(state, cycles.drop_last(), x);
        lemma_seen_after_bounded(before.seen, before.capacity, cycles.last());
        lemma_room_keeps_identity(before.seen, before.capacity, cycles.last(), x);
    }
}

/// While there is room for every entry of every cycle, an identity that the
/// engine holds is reported by none of the cycles that follow.
pub proof fn lemma_no_repeat_over_cycles(
    state: ManagerView,
    cycles: Seq<Seq<EntryView>>,
    x: Seq<char>,
    j: int,
)
    requires
        bounded(state.seen, state.capacity),
        state.seen.contains(x),
        state.seen.len() + total_entries(cycles) <= state.capacity,
        0 <= j < cycles.len(),
    ensures
        forall|i: int|
            0 <= i < reported(after_cycles(state, cycles.take(j)), cycles[j]).len() ==> (
            #[trigger] reported(after_cycles(state, cycles.take(j)), cycles[j])[i]).link != x,
{
    let before = after_cycles(state, cycles.take(j));
    lemma_total_entries_of_prefix(cycles, j);
    lemma_cycles_keep_identity(state, cycles.take(j), x);
    lemma_known_identity_not_reported(before.seen, before.capacity, cycles[j], x);
}

/// The identities that a memory holds together with those that the entries
/// of a cycle carry.
pub open spec fn known_identities(order: Seq<Seq<char>>, entries: Seq<EntryView>) -> Set<Seq<char>> {
    order.to_set().union(entries.map_values(|e: EntryView| identity_of(e)).to_set())
}

/// The identities met in the first entries of a cycle are among those met in
/// all of it.
pub proof fn lemma_known_identities_of_prefix(
    order: Seq<Seq<char>>,
    entries: Seq<EntryView>,
    k: int,
)
    requires
        0 <= k <= entries.len(),
    ensures
        known_identities(order, entries.take(k)).subset_of(known_identities(order, entries)),
        known_identities(order, entries).finite(),
        known_identities(order, entries.take(k)).len() <= known_identities(order, entries).len(),
{
    broadcast use vstd::seq_lib::seq_to_set_is_finite;
    broadcast use vstd::set::group_set_axioms;

    let all = entries.map_values(|e: EntryView| identity_of(e));
    let part = entries.take(k).map_values(|e: EntryView| identity_of(e));
    assert forall|y: Seq<char>| known_identities(order, entries.take(k)).contains(y) implies
        known_identities(order, entries).contains(y) by {
        if !order.to_set().contains(y) {
            assert(part.contains(y));
            let j = choose|j: int| 0 <= j < part.len() && part[j] == y;
            assert(all[j] == y);
        }
    }
    vstd::set_lib::lemma_len_subset(
        known_identities(order, entries.take(k)),
        known_identities(order, entries),
    );
}

/// Where the identities held and those of the entries are together no more
/// than the capacity, a cycle evicts nothing: afterwards the memory holds
/// exactly them.
pub proof fn lemma_few_identities_all_held(
    order: Seq<Seq<char>>,
    limit: nat,
    entries: Seq<EntryView>,
)
    requires
        bounded(order, limit),
        known_identities(order, entries).len() <= limit,
    ensures
        bounded(seen_after(order, limit, entries), limit),
        seen_after(order, limit, entries).to_set() =~= known_identities(order, entries),
    decreases entries.len(),
{
    broadcast use vstd::seq_lib::seq_to_set_is_finite;
    broadcast use vstd::set::group_set_axioms;

    let all = entries.map_values(|e: EntryView| identity_of(e));
    if entries.len() == 0 {
        assert(all.to_set() =~= Set::<Seq<char>>::empty());
    } else {
        let rest = entries.drop_last();
        let part = rest.map_values(|e: EntryView| identity_of(e));
        let id = identity_of(entries.last());
        let prev = seen_after(order, limit, rest);
        let next = seen_after(order, limit, entries);
        assert(rest =~= entries.take(entries.len() - 1));
        lemma_known_identities_of_prefix(order, entries, entries.len() - 1);
        lemma_few_identities_all_held(order, limit, rest);
        prev.unique_seq_to_set();
        lemma_admitted_bounded(prev, limit, id);
        assert(all[entries.len() - 1] == id);
        assert(known_identities(order, entries) =~= known_identities(order, rest).insert(id)) by {
            assert forall|y: Seq<char>| known_identities(order, entries).contains(y) implies
                known_identities(order, rest).insert(id).contains(y) by {
                if !order.to_set().contains(y) && y != id {
                    assert(all.contains(y));
                    let j = choose|j: int| 0 <= j < all.len() && all[j] == y;
                    assert(part[j] == y);
                }
            }
            assert forall|y: Seq<char>| known_identities(order, rest).insert(id).contains(
                y,
            ) implies known_identities(order, entries).contains(y) by {
                if y == id {
                    assert(all.contains(y));
                } else if !order.to_set().contains(y) {
                    assert(part.contains(y));
                    let j = choose|j: int| 0 <= j < part.len() && part[j] == y;
                    assert(all[j] == y);
                }
            }
        }
        if prev.contains(id) {
            lemma_known_offer_keeps_identities(prev, limit, id);
            assert(next.to_set() =~= prev.to_set());
        } else {
            assert(!known_identities(order, rest).contains(id));
            assert(prev.len() < limit);
            assert(next == prev.push(id));
            assert forall|y: Seq<char>| next.to_set().contains(y) <==> prev.to_set().insert(
                id,
            ).contains(y) by {
                if next.contains(y) {
                    let j = choose|j: int| 0 <= j < next.len() && next[j] == y;
                    if j < prev.len() {
                        assert(prev[j] == y);
                    }
                }
                if prev.contains(y) {
                    let j = choose|j: int| 0 <= j < prev.len() && prev[j] == y;
                    assert(next[j] == y);
                }
                if y == id {
                    assert(next[prev.len() as int] == y);
                }
            }
            assert(next.to_set() =~= prev.to_set().insert(id));
        }
    }
}

/// Where the identities held and those that a cycle brings are together no
/// more than the capacity, an identity that was held before the cycle is
/// held after it and is not reported by it.
pub proof fn lemma_no_repeat_among_few(
    state: ManagerView,
    entries: Seq<EntryView>,
    x: Seq<char>,
)
    requires
        bounded(state.seen, state.capacity),
        state.seen.contains(x),
        known_identities(state.seen, entries).len() <= state.capacity,
    ensures
        after_cycle(state, entries).seen.contains(x),
        forall|i: int|
            0 <= i < reported(state, entries).len() ==> (#[trigger] reported(state, entries)[i]).link
                != x,
{
    assert forall|k: int| 0 <= k <= entries.len() implies #[trigger] seen_after(
        state.seen,
        state.capacity,
        entries.take(k),
    ).contains(x) by {
        lemma_known_identities_of_prefix(state.seen, entries, k);
        lemma_few_identities_all_held(state.seen, state.capacity, entries.take(k));
        assert(known_identities(state.seen, entries.take(k)).contains(x));
    }
    assert(entries.take(entries.len() as int) =~= entries);
    lemma_no_repeat_without_eviction(state, entries, x);
}

/// Whatever the memory holds after a cycle, it held before or met in an
/// entry of the cycle.
pub proof fn lemma_held_identity_has_origin(
    order: Seq<Seq<char>>,
    limit: nat,
    entries: Seq<EntryView>,
    y: Seq<char>,
)
    requires
        bounded(order, limit),
        seen_after(order, limit, entries).contains(y),
    ensures
        order.contains(y) || exists|j: int|
            0 <= j < entries.len() && identity_of(#[trigger] entries[j]) == y,
    decreases entries.len(),
{
    if entries.len() > 0 {
        let rest = entries.drop_last();
        let prev = seen_after(order, limit, rest);
        let id = identity_of(entries.last());
        let next = admitted(prev, limit, id);
        lemma_seen_after_bounded(order, limit, rest);
        if y == id {
            assert(identity_of(entries[entries.len() - 1]) == y);
        } else {
            let k = choose|k: int| 0 <= k < next.len() && next[k] == y;
            assert(next[next.len() - 1] == id);
            assert(k < next.len() - 1);
            if prev.contains(id) {
                let at = prev.index_of(id);
                let from = if k < at {
                    k
                } else {
                    k + 1
                };
                assert(prev[from] == y);
            } else if prev.len() >= limit {
                assert(prev[k + 1] == y);
            } else {
                assert(prev[k] == y);
            }
            assert(prev.contains(y));
            lemma_held_identity_has_origin(order, limit, rest, y);
            if !order.contains(y) {
                let j = choose|j: int| 0 <= j < rest.len() && identity_of(#[trigger] rest[j]) == y;
                assert(entries[j] == rest[j]);
            }
        }
    }
}

/// After a cycle that found room for all its entries, a cycle over the same
/// entries followed by one more, whose identity was never met, reports that
/// one posting and nothing else.
pub proof fn lemma_addition_is_reported(
    state: ManagerView,
    entries: Seq<EntryView>,
    addition: EntryView,
)
    requires
        bounded(state.seen, state.capacity),
        state.seen.len() + entries.len() <= state.capacity,
        !state.seen.contains(identity_of(addition)),
        forall|j: int|
            0 <= j < entries.len() ==> identity_of(#[trigger] entries[j]) != identity_of(addition),
    ensures
        reported(after_cycle(state, entries), entries.push(addition)) == seq![listing_of(addition)],
{
    let next = after_cycle(state, entries);
    let id = identity_of(addition);
    let longer = entries.push(addition);
    lemma_repeated_cycle_reports_nothing(state, entries);
    lemma_seen_after_bounded(state.seen, state.capacity, entries);
    assert(longer.drop_last() =~= entries);
    assert(longer.last() == addition);
    if next.seen.contains(id) {
        lemma_held_identity_has_origin(state.seen, state.capacity, entries, id);
    }
    if seen_after(next.seen, next.capacity, entries).contains(id) {
        lemma_held_identity_has_origin(next.seen, next.capacity, entries, id);
    }
    assert(fresh_listings(next.seen, next.capacity, longer) =~= seq![listing_of(addition)]);
}

/// A cycle that finds room for all its entries leaves nothing for a second
/// cycle over the same entries to report.
pub proof fn lemma_repeated_cycle_reports_nothing(state: ManagerView, entries: Seq<EntryView>)
    requires
        bounded(state.seen, state.capacity),
        state.seen.len() + entries.len() <= state.capacity,
    ensures
        reported(after_cycle(state, entries), entries) == Seq::<ListingView>::empty(),
{
    let next = after_cycle(state, entries);
    lemma_seen_after_bounded(state.seen, state.capacity, entries);
    assert forall|j: int| 0 <= j < entries.len() implies next.seen.contains(
        identity_of(#[trigger] entries[j]),
    ) by {
        lemma_admitted_identity_held(state.seen, state.capacity, entries, j);
    }
    lemma_known_entries_report_nothing(next.seen, next.capacity, entries);
}

/// The first successful cycle reports nothing, whatever the feed holds, and
/// remembers what it met as any other cycle does.
pub proof fn lemma_first_cycle_reports_nothing(state: ManagerView, entries: Seq<EntryView>)
    requires
        state.fresh,
    ensures
        reported(state, entries) == Seq::<ListingView>::empty(),
        after_cycle(state, entries).seen == seen_after(state.seen, state.capacity, entries),
        !after_cycle(state, entries).fresh,
{
}

/// What the retrieval of one cycle gave.
pub enum Retrieval {
    /// The feed could not be retrieved.
    Failed,
    /// What was retrieved is no feed, or is nested too deeply to be read.
    Malformed,
    /// The entries of the feed, in its order.
    Entries(Seq<EntryView>),
}

/// What a response stands for: a failure, a document that cannot be read
/// as a feed, or the entries of the document.
pub open spec fn retrieval_of(response: Result<String, String>) -> Retrieval {
    match response {
        Err(_) => Retrieval::Failed,
        Ok(document) => match readable_items(document@) {
            None => Retrieval::Malformed,
            Some(entries) => Retrieval::Entries(entries),
        },
    }
}

/// The state after a cycle: untouched unless the cycle had entries to work on.
pub open spec fn state_after(state: ManagerView, retrieval: Retrieval) -> ManagerView {
    match retrieval {
        Retrieval::Entries(entries) => after_cycle(state, entries),
        _ => state,
    }
}

/// What a cycle reports; `None` where it fails.
pub open spec fn report_after(state: ManagerView, retrieval: Retrieval) -> Option<Seq<ListingView>> {
    match retrieval {
        Retrieval::Entries(entries) => Some(reported(state, entries)),
        _ => None,
    }
}

/// A failed cycle might as well not have happened: the cycle that follows
/// it ends in the state, and with the report, that it would have given in
/// the failed one's place.
pub proof fn lemma_failed_cycle_is_retryable(
    state: ManagerView,
    failure: Retrieval,
    retry: Retrieval,
)
    requires
        !(failure is Entries),
    ensures
        state_after(state, failure) == state,
        report_after(state, failure) is None,
        state_after(state_after(state, failure), retry) == state_after(state, retry),
        report_after(state_after(state, failure), retry) == report_after(state, retry),
{
}

/// The number of identities remembered for each entry of a page.
pub open spec fn scale_factor() -> nat {
    1000
}

/// The engine of one watched query.
pub struct JobManager {
    query: String,
    paging: usize,
    seen_links: SeenSet,
    is_fresh: bool,
}

impl View for JobManager {
    type V = ManagerView;

    closed spec fn view(&self) -> ManagerView {
        ManagerView {
            query: self.query@,
            paging: self.paging as nat,
            seen: self.seen_links.order(),
            capacity: self.seen_links.capacity(),
            fresh: self.is_fresh,
        }
    }
}

impl JobManager {
    /// The engine's memory is within its bounds, and as large as the page
    /// size asks.
    pub open spec fn wf(&self) -> bool {
        &&& bounded(self@.seen, self@.capacity)
        &&& self@.capacity == scale_factor() * self@.paging
    }

    /// Whether a memory for pages of `paging` entries can be laid out.
    pub fn page_size_fits(paging: usize) -> (fits: bool)
        ensures
            fits == (scale_factor() * paging <= max_capacity()),
    {
        paging <= usize::MAX / 128 / 1000
    }

    /// An engine for `query` with pages of `paging` entries. It remembers up
    /// to a thousand identities for each entry of a page and has met none;
    /// with no entry to a page there is no engine.
    pub fn new(query: &str, paging: usize) -> (r: Result<JobManager, PollError>)
        requires
            scale_factor() * paging <= max_capacity(),
        ensures
            r is Ok <==> paging > 0,
            r matches Ok(m) ==> m.wf() && m@ == (ManagerView {
                query: query@,
                paging: paging as nat,
                seen: Seq::<Seq<char>>::empty(),
                capacity: scale_factor() * (paging as nat),
                fresh: true,
            }),
            r matches Err(e) ==> e is InvalidCapacity,
    {
        match SeenSet::new(1000 * paging) {
            Err(e) => Err(e),
            Ok(seen_links) => {
                Ok(JobManager { query: String::from_str(query), paging, seen_links, is_fresh: true })
            },
        }
    }

    /// The address to retrieve for the next cycle: the feed's base with the
    /// query, the order by recency and the paging window.
    pub fn build_url(&self) -> (r: Result<String, PollError>)
        ensures
            r is Ok <==> feed_address(self@.query, self@.paging) is Some,
            r matches Ok(text) ==> Some(text@) == feed_address(self@.query, self@.paging),
            r matches Err(e) ==> e is Fetch,
    {
        search_url(self.query.as_str(), self.paging)
    }

    /// Normalises one raw entry: the link as identity, the title as it is,
    /// the description re-rendered, and the value under the label in the
    /// rendered description. Absent fields count as empty.
    pub fn parse_job(entry: &RawEntry) -> (job: JobListing)
        ensures
            job@ == listing_of(entry@),
    {
        let link = match &entry.link {
            Some(text) => text.clone(),
            None => String::new(),
        };
        let title = match &entry.title {
            Some(text) => text.clone(),
            None => String::new(),
        };
        let description = match &entry.description {
            Some(text) => normalize_markup(text.as_str()),
            None => normalize_markup(""),
        };
        let country = match extract_attribute(description.as_str()) {
            Some(value) => value,
            None => String::new(),
        };
        proof {
            reveal_strlit("");
            assert(""@ =~= Seq::<char>::empty());
        }
        JobListing { link, title, description, country }
    }

    /// Offers the identity of each entry to the memory, in order, and gives
    /// the postings of those that were new.
    pub fn admit_entries(&mut self, entries: &Vec<RawEntry>) -> (new_jobs: Vec<JobListing>)
        requires
            old(self).wf(),
        ensures
            final(self).wf(),
            final(self)@ == (ManagerView {
                seen: seen_after(old(self)@.seen, old(self)@.capacity, entries_view(entries@)),
                ..old(self)@
            }),
            listings_view(new_jobs@) == fresh_listings(
                old(self)@.seen,
                old(self)@.capacity,
                entries_view(entries@),
            ),
    {
        let ghost start = self.seen_links.order();
        let ghost limit = self.seen_links.capacity();
        let ghost all = entries_view(entries@);
        let mut new_jobs: Vec<JobListing> = Vec::new();
        let mut i: usize = 0;
        assert(listings_view(new_jobs@) =~= Seq::<ListingView>::empty());
        while i < entries.len()
            invariant
                i <= entries.len(),
                all == entries_view(entries@),
                self.seen_links.wf(),
                self.seen_links.capacity() == limit,
                self.seen_links.order() == seen_after(start, limit, all.take(i as int)),
                listings_view(new_jobs@) == fresh_listings(start, limit, all.take(i as int)),
                self.query == old(self).query,
                self.paging == old(self).paging,
                self.is_fresh == old(self).is_fresh,
            decreases entries.len() - i,
        {
            let entry = &entries[i];
            let link = match &entry.link {
                Some(text) => text.clone(),
                None => String::new(),
            };
            proof {
                let upto = all.take(i as int + 1);
                assert(upto.drop_last() =~= all.take(i as int));
                assert(upto.last() == entry@);
                assert(link@ == identity_of(entry@));
            }
            let ghost before = listings_view(new_jobs@);
            if self.seen_links.test_and_admit(link) {
                let job = Self::parse_job(entry);
                new_jobs.push(job);
                assert(listings_view(new_jobs@) =~= before.push(listing_of(entry@)));
            }
            i += 1;
        }
        assert(all.take(i as int) =~= all);
        new_jobs
    }

    /// One cycle on entries already read: admits them all, then reports the
    /// new postings, or nothing where this is the first successful cycle.
    pub fn diff_entries(&mut self, entries: &Vec<RawEntry>) -> (new_jobs: Vec<JobListing>)
        requires
            old(self).wf(),
        ensures
            final(self).wf(),
            final(self)@ == after_cycle(old(self)@, entries_view(entries@)),
            listings_view(new_jobs@) == reported(old(self)@, entries_view(entries@)),
    {
        let new_jobs = self.admit_entries(entries);
        if self.is_fresh {
            self.is_fresh = false;
            let none: Vec<JobListing> = Vec::new();
            assert(listings_view(none@) =~= Seq::<ListingView>::empty());
            return none;
        }
        new_jobs
    }

    /// One cycle on what the retrieval gave: the document, or the cause of
    /// its failure. A failed retrieval, and a document that is no feed or is
    /// nested too deeply to be read, leave the engine as it was. Otherwise every entry is admitted, in the feed's
    /// order, and the new postings are reported; the first successful cycle
    /// reports none.
    pub fn fetch_new_jobs(&mut self, response: Result<String, String>) -> (r: Result<
        Vec<JobListing>,
        PollError,
    >)
        requires
            old(self).wf(),
        ensures
            final(self).wf(),
            r is Ok <==> (response matches Ok(document) && readable_items(document@) is Some),
            final(self)@ == state_after(old(self)@, retrieval_of(response)),
            match r {
                Ok(new_jobs) => Some(listings_view(new_jobs@)),
                Err(_) => None,
            } == report_after(old(self)@, retrieval_of(response)),
            r is Err ==> final(self)@ == old(self)@,
            response matches Err(cause) ==> r == Err::<Vec<JobListing>, PollError>(
                PollError::Fetch { cause },
            ),
            response is Ok && r is Err ==> r->Err_0 is Parse,
            r matches Ok(new_jobs) ==> {
                let entries = readable_items(response->Ok_0@)->Some_0;
                &&& final(self)@ == after_cycle(old(self)@, entries)
                &&& listings_view(new_jobs@) == reported(old(self)@, entries)
            },
    {
        match response {
            Err(cause) => Err(PollError::Fetch { cause }),
            Ok(document) => match read_feed(document.as_str()) {
                Err(e) => Err(e),
                Ok(entries) => Ok(self.diff_entries(&entries)),
            },
        }
    }

    /// The search that is watched.
    pub fn query(&self) -> (query: &str)
        ensures
            query@ == self@.query,
    {
        self.query.as_str()
    }

    /// The number of entries asked of the feed in one cycle.
    pub fn paging(&self) -> (paging: usize)
        ensures
            paging == self@.paging,
    {
        self.paging
    }

    /// Whether a successful cycle has been completed.
    pub fn is_primed(&self) -> (primed: bool)
        ensures
            primed == !self@.fresh,
    {
        !self.is_fresh
    }

    /// Whether `identity` is remembered.
    pub fn has_seen(&self, identity: &str) -> (held: bool)
        ensures
            held == self@.seen.contains(identity@),
    {
        self.seen_links.contains(identity)
    }

    /// The number of identities remembered.
    pub fn seen_count(&self) -> (n: usize)
        ensures
            n == self@.seen.len(),
    {
        self.seen_links.len()
    }

    /// The number of identities that can be remembered at once.
    pub fn capacity(&self) -> (n: usize)
        ensures
            n == self@.capacity,
    {
        self.seen_links.cap()
    }
}

} // verus!
