//! The inbox view: which messages are shown, and in what order.
//!
//! A mailbox lists its messages as pairs of an identifier and the moment of
//! receipt, in no particular order.  The view ranks them from the most
//! recent to the oldest, keeps the first `count`, and shows for each the bare
//! address of its sender.  Messages received at the same moment stay in the
//! order in which the mailbox listed them.

use vstd::prelude::*;
use vstd::seq_lib::to_multiset_insert;
use crate::error::MailError;
use crate::headers::{bare_address, sender_address};
use crate::text::trimmed;

verus! {

/// The moment at which the mailbox received a message.
///
/// `timestamp` counts the seconds since 1970-01-01 00:00:00 UTC, `nanos` the
/// nanoseconds within that second, and `offset` the seconds east of UTC of
/// the zone in which the moment is displayed.  The offset plays no part in
/// the order of two moments.
#[derive(Debug, Clone, Copy, PartialEq, Eq, Structural)]
pub struct ReceivedAt {
    pub timestamp: i64,
    pub nanos: u32,
    pub offset: i32,
}

/// A message's identifier with the moment of its receipt.
pub type MessageKey = (u32, ReceivedAt);

/// One line of the inbox: a message's identifier, the bare address of its
/// sender, and the moment of its receipt.
#[derive(Debug, Clone)]
pub struct MailSummary {
    pub uid: u32,
    pub from: String,
    pub date: ReceivedAt,
}

/// `a` is strictly later than `b`.
pub open spec fn newer(a: ReceivedAt, b: ReceivedAt) -> bool {
    a.timestamp > b.timestamp || (a.timestamp == b.timestamp && a.nanos > b.nanos)
}

/// `a` and `b` are the same moment.
pub open spec fn same_moment(a: ReceivedAt, b: ReceivedAt) -> bool {
    a.timestamp == b.timestamp && a.nanos == b.nanos
}

impl ReceivedAt {
    /// Whether this moment is strictly later than `other`.
    pub fn is_after(&self, other: &ReceivedAt) -> (r: bool)
        ensures
            r == newer(*self, *other),
    {
        self.timestamp > other.timestamp || (self.timestamp == other.timestamp && self.nanos
            > other.nanos)
    }
}

/// No entry is later than an entry before it.
pub open spec fn most_recent_first(keys: Seq<MessageKey>) -> bool {
    forall|i: int, j: int|
        0 <= i < j < keys.len() ==> !newer(#[trigger] keys[j].1, #[trigger] keys[i].1)
}

/// The keys among the listed entries: an entry counts only if it carries
/// both an identifier and a moment of receipt.
pub open spec fn listed_keys(entries: Seq<(Option<u32>, Option<ReceivedAt>)>) -> Seq<MessageKey>
    decreases entries.len(),
{
    if entries.len() == 0 {
        Seq::empty()
    } else {
        let before = listed_keys(entries.drop_last());
        match entries.last() {
            (Some(uid), Some(date)) => before.push((uid, date)),
            _ => before,
        }
    }
}

/// Where `key` enters a ranking: in front of the trailing run of entries
/// that are not later than it.
pub open spec fn slot_for(ranking: Seq<MessageKey>, key: MessageKey) -> int
    decreases ranking.len(),
{
    if ranking.len() == 0 {
        0
    } else if newer(ranking.last().1, key.1) {
        ranking.len() as int
    } else {
        slot_for(ranking.drop_last(), key)
    }
}

/// The keys from the most recent to the oldest, keys of one moment in the
/// order in which they were listed.
pub open spec fn ranked(keys: Seq<MessageKey>) -> Seq<MessageKey>
    decreases keys.len(),
{
    if keys.len() == 0 {
        Seq::empty()
    } else {
        let rest = ranked(keys.drop_first());
        rest.insert(slot_for(rest, keys.first()), keys.first())
    }
}

/// The first `count` keys of the ranking, or all of them if there are fewer.
pub open spec fn newest(keys: Seq<MessageKey>, count: nat) -> Seq<MessageKey> {
    if count <= keys.len() {
        ranked(keys).take(count as int)
    } else {
        ranked(keys)
    }
}

/// A ranking holds as many keys as were given.
pub proof fn lemma_ranked_len(keys: Seq<MessageKey>)
    ensures
        ranked(keys).len() == keys.len(),
    decreases keys.len(),
{
    if keys.len() > 0 {
        lemma_ranked_len(keys.drop_first());
        lemma_slot_for(ranked(keys.drop_first()), keys.first());
    }
}

/// What `slot_for` finds in a ranking that runs from recent to old: every
/// entry in front of the slot is later than the key, no entry from the slot
/// on is.
pub proof fn lemma_slot_for(ranking: Seq<MessageKey>, key: MessageKey)
    ensures
        0 <= slot_for(ranking, key) <= ranking.len(),
        forall|i: int|
            slot_for(ranking, key) <= i < ranking.len() ==> !newer(
                (#[trigger] ranking[i]).1,
                key.1,
            ),
        most_recent_first(ranking) ==> forall|i: int|
            0 <= i < slot_for(ranking, key) ==> newer((#[trigger] ranking[i]).1, key.1),
    decreases ranking.len(),
{
    if ranking.len() > 0 {
        if newer(ranking.last().1, key.1) {
            if most_recent_first(ranking) {
                assert forall|i: int| 0 <= i < ranking.len() implies newer(
                    (#[trigger] ranking[i]).1,
                    key.1,
                ) by {
                    if i < ranking.len() - 1 {
                        assert(!newer(ranking[ranking.len() - 1].1, ranking[i].1));
                    }
                }
            }
        } else {
            let front = ranking.drop_last();
            lemma_slot_for(front, key);
            assert forall|i: int| slot_for(ranking, key) <= i < ranking.len() implies !newer(
                (#[trigger] ranking[i]).1,
                key.1,
            ) by {
                if i < ranking.len() - 1 {
                    assert(ranking[i] == front[i]);
                }
            }
            if most_recent_first(ranking) {
                assert forall|i: int, j: int| 0 <= i < j < front.len() implies !newer(
                    #[trigger] front[j].1,
                    #[trigger] front[i].1,
                ) by {
                    assert(front[i] == ranking[i] && front[j] == ranking[j]);
                }
                assert forall|i: int| 0 <= i < slot_for(ranking, key) implies newer(
                    (#[trigger] ranking[i]).1,
                    key.1,
                ) by {
                    assert(ranking[i] == front[i]);
                }
            }
        }
    }
}

/// A ranking runs from the most recent key to the oldest.
pub proof fn lemma_ranked_order(keys: Seq<MessageKey>)
    ensures
        most_recent_first(ranked(keys)),
    decreases keys.len(),
{
    if keys.len() > 0 {
        let rest = ranked(keys.drop_first());
        let key = keys.first();
        lemma_ranked_order(keys.drop_first());
        lemma_slot_for(rest, key);
        let slot = slot_for(rest, key);
        let all = rest.insert(slot, key);
        assert forall|i: int, j: int| 0 <= i < j < all.len() implies !newer(
            #[trigger] all[j].1,
            #[trigger] all[i].1,
        ) by {
            if j < slot {
                assert(all[i] == rest[i] && all[j] == rest[j]);
            } else if j == slot {
                assert(all[i] == rest[i]);
            } else if i < slot {
                assert(all[i] == rest[i] && all[j] == rest[j - 1]);
            } else if i == slot {
                assert(all[j] == rest[j - 1]);
            } else {
                assert(all[i] == rest[i - 1] && all[j] == rest[j - 1]);
            }
        }
    }
}

/// A ranking holds exactly the keys that were given, each as often as given.
pub proof fn lemma_ranked_keeps_keys(keys: Seq<MessageKey>)
    ensures
        ranked(keys).to_multiset() == keys.to_multiset(),
    decreases keys.len(),
{
    if keys.len() == 0 {
        assert(ranked(keys) == keys);
    } else {
        let rest = ranked(keys.drop_first());
        let key = keys.first();
        lemma_ranked_keeps_keys(keys.drop_first());
        lemma_slot_for(rest, key);
        to_multiset_insert(rest, slot_for(rest, key), key);
        to_multiset_insert(keys.drop_first(), 0, key);
        assert(keys.drop_first().insert(0, key) == keys);
    }
}

/// Ranking is stable: the keys of any one moment stand in the ranking in the
/// order in which they were given.
pub proof fn lemma_ranked_stable(keys: Seq<MessageKey>, moment: ReceivedAt)
    ensures
        ranked(keys).filter(|k: MessageKey| same_moment(k.1, moment)) == keys.filter(
            |k: MessageKey| same_moment(k.1, moment),
        ),
    decreases keys.len(),
{
    let at = |k: MessageKey| same_moment(k.1, moment);
    if keys.len() == 0 {
        assert(ranked(keys) == keys);
    } else {
        let tail = keys.drop_first();
        let rest = ranked(tail);
        let key = keys.first();
        lemma_ranked_stable(tail, moment);
        lemma_ranked_order(tail);
        lemma_slot_for(rest, key);
        let slot = slot_for(rest, key);
        let front = rest.take(slot);
        let back = rest.skip(slot);
        assert(rest == front + back);
        assert(rest.insert(slot, key) == front + (seq![key] + back));
        Seq::filter_distributes_over_add(front, back, at);
        Seq::filter_distributes_over_add(front, seq![key] + back, at);
        back.lemma_filter_prepend(key, at);
        assert(keys == seq![key] + tail);
        tail.lemma_filter_prepend(key, at);
        if at(key) {
            assert forall|i: int| 0 <= i < front.len() implies !at(#[trigger] front[i]) by {
                assert(front[i] == rest[i]);
                assert(newer(rest[i].1, key.1));
            }
            front.lemma_all_neg_filter_empty(at);
            assert(front.filter(at) == Seq::<MessageKey>::empty());
            assert(rest.filter(at) == back.filter(at));
        }
    }
}

/// With the ranking's length and order at hand: the first `count` keys of a
/// ranking are `min(count, total)` keys, from the most recent to the oldest.
pub proof fn lemma_newest(keys: Seq<MessageKey>, count: nat)
    ensures
        newest(keys, count).len() == if count <= keys.len() {
            count
        } else {
            keys.len()
        },
        most_recent_first(newest(keys, count)),
        forall|i: int|
            0 <= i < newest(keys, count).len() ==> keys.contains(
                #[trigger] newest(keys, count)[i],
            ),
{
    lemma_ranked_len(keys);
    lemma_ranked_order(keys);
    lemma_ranked_keeps_keys(keys);
    let all = ranked(keys);
    let top = newest(keys, count);
    assert forall|i: int, j: int| 0 <= i < j < top.len() implies !newer(
        #[trigger] top[j].1,
        #[trigger] top[i].1,
    ) by {
        assert(top[i] == all[i] && top[j] == all[j]);
    }
    assert forall|i: int| 0 <= i < top.len() implies keys.contains(#[trigger] top[i]) by {
        assert(top[i] == all[i]);
        all.to_multiset_ensures();
        keys.to_multiset_ensures();
        assert(all.contains(all[i]));
        assert(all.to_multiset().count(all[i]) > 0);
        assert(keys.to_multiset().count(all[i]) > 0);
    }
}

/// Asking for more extends the view and changes nothing of what was shown:
/// the newest `fewer` keys are the first of the newest `more`.
pub proof fn lemma_more_extends(keys: Seq<MessageKey>, fewer: nat, more: nat)
    requires
        fewer <= more,
    ensures
        newest(keys, fewer) == at_most(newest(keys, more), fewer),
{
    lemma_ranked_len(keys);
    if fewer <= keys.len() && more <= keys.len() {
        assert(ranked(keys).take(more as int).take(fewer as int) == ranked(keys).take(
            fewer as int,
        ));
    }
}

/// Picks the keys out of the listed entries, leaving out every entry that
/// lacks its identifier or its moment of receipt.
pub fn collect_keys(entries: &Vec<(Option<u32>, Option<ReceivedAt>)>) -> (keys: Vec<MessageKey>)
    ensures
        keys@ == listed_keys(entries@),
{
    let mut keys: Vec<MessageKey> = Vec::new();
    let mut i: usize = 0;
    assert(entries@.take(0) == Seq::<(Option<u32>, Option<ReceivedAt>)>::empty());
    while i < entries.len()
        invariant
            i <= entries.len(),
            keys@ == listed_keys(entries@.take(i as int)),
        decreases entries.len() - i,
    {
        assert(entries@.take(i + 1).drop_last() == entries@.take(i as int));
        assert(entries@.take(i + 1).last() == entries@[i as int]);
        match entries[i] {
            (Some(uid), Some(date)) => {
                keys.push((uid, date));
            },
            _ => {},
        }
        i += 1;
    }
    assert(entries@.take(entries.len() as int) == entries@);
    keys
}

fn find_slot(ranking: &Vec<MessageKey>, key: MessageKey) -> (slot: usize)
    ensures
        slot == slot_for(ranking@, key),
        slot <= ranking.len(),
{
    let mut slot: usize = ranking.len();
    assert(ranking@.take(slot as int) == ranking@);
    while slot > 0 && !ranking[slot - 1].1.is_after(&key.1)
        invariant
            slot <= ranking.len(),
            slot_for(ranking@, key) == slot_for(ranking@.take(slot as int), key),
        decreases slot,
    {
        assert(ranking@.take(slot as int).drop_last() == ranking@.take(slot - 1));
        slot -= 1;
    }
    slot
}

/// Ranks the keys from the most recent to the oldest; keys of one moment keep
/// the order in which they were given.
pub fn rank_keys(keys: &Vec<MessageKey>) -> (out: Vec<MessageKey>)
    ensures
        out@ == ranked(keys@),
        out@.len() == keys@.len(),
        most_recent_first(out@),
        out@.to_multiset() == keys@.to_multiset(),
{
    let mut out: Vec<MessageKey> = Vec::new();
    let mut i: usize = keys.len();
    assert(keys@.skip(keys.len() as int) == Seq::<MessageKey>::empty());
    while i > 0
        invariant
            i <= keys.len(),
            out@ == ranked(keys@.skip(i as int)),
        decreases i,
    {
        i -= 1;
        let key = keys[i];
        assert(keys@.skip(i as int).drop_first() == keys@.skip(i + 1));
        assert(keys@.skip(i as int).first() == key);
        proof {
            lemma_ranked_len(keys@.skip(i + 1));
        }
        let slot = find_slot(&out, key);
        out.insert(slot, key);
    }
    assert(keys@.skip(0) == keys@);
    proof {
        lemma_ranked_len(keys@);
        lemma_ranked_order(keys@);
        lemma_ranked_keeps_keys(keys@);
    }
    out
}

/// The first `count` entries of `keys`, or all of them if there are fewer.
pub open spec fn at_most(keys: Seq<MessageKey>, count: nat) -> Seq<MessageKey> {
    if count <= keys.len() {
        keys.take(count as int)
    } else {
        keys
    }
}

/// The newest keys can be had without ranking them all: a key enters the
/// newest of the keys after it, and what falls beyond `count` is dropped.
pub proof fn lemma_newest_step(keys: Seq<MessageKey>, count: nat)
    requires
        keys.len() > 0,
    ensures
        ({
            let before = newest(keys.drop_first(), count);
            newest(keys, count) == at_most(
                before.insert(slot_for(before, keys.first()), keys.first()),
                count,
            )
        }),
{
    let rest = keys.drop_first();
    let key = keys.first();
    let all = ranked(rest);
    let before = newest(rest, count);
    lemma_ranked_len(rest);
    lemma_ranked_len(keys);
    lemma_ranked_order(rest);
    lemma_slot_for(all, key);
    lemma_slot_for(before, key);
    let slot = slot_for(all, key);
    let near = slot_for(before, key);
    if count <= rest.len() {
        assert forall|i: int, j: int| 0 <= i < j < before.len() implies !newer(
            #[trigger] before[j].1,
            #[trigger] before[i].1,
        ) by {
            assert(before[i] == all[i] && before[j] == all[j]);
        }
        if slot < count {
            if near < slot {
                assert(before[near] == all[near]);
            }
            if slot < near {
                assert(before[slot] == all[slot]);
            }
            assert(near == slot);
        } else {
            if near < count {
                assert(before[near] == all[near]);
            }
            assert(near == count);
        }
        assert(before.insert(near, key).take(count as int) == all.insert(slot, key).take(
            count as int,
        ));
    } else {
        assert(before == all);
        assert(all.insert(slot, key).take(all.len() as int + 1) == all.insert(slot, key));
    }
}

/// The plan of an inbox view: the `count` most recent of the listed messages,
/// or all of them if the mailbox lists fewer, from the most recent to the
/// oldest.  No more than `count` keys are held at any time while the plan is
/// made.
pub fn plan_inbox(entries: &Vec<(Option<u32>, Option<ReceivedAt>)>, count: usize) -> (plan: Vec<
    MessageKey,
>)
    ensures
        plan@ == newest(listed_keys(entries@), count as nat),
        plan@.len() == if count <= listed_keys(entries@).len() {
            count as nat
        } else {
            listed_keys(entries@).len()
        },
        most_recent_first(plan@),
{
    let keys = collect_keys(entries);
    let mut plan: Vec<MessageKey> = Vec::new();
    let mut i: usize = keys.len();
    assert(keys@.skip(keys.len() as int) == Seq::<MessageKey>::empty());
    while i > 0
        invariant
            i <= keys.len(),
            plan@ == newest(keys@.skip(i as int), count as nat),
            plan@.len() <= keys.len() - i,
        decreases i,
    {
        i -= 1;
        let key = keys[i];
        assert(keys@.skip(i as int).drop_first() == keys@.skip(i + 1));
        assert(keys@.skip(i as int).first() == key);
        proof {
            lemma_newest_step(keys@.skip(i as int), count as nat);
        }
        let slot = find_slot(&plan, key);
        plan.insert(slot, key);
        plan.truncate(count);
    }
    assert(keys@.skip(0) == keys@);
    proof {
        lemma_newest(listed_keys(entries@), count as nat);
    }
    plan
}

/// `summary` is the inbox line of the message `key` whose From field has the
/// value `sender`: it shows the bare address of the sender.
pub open spec fn summarizes(summary: MailSummary, key: MessageKey, sender: Seq<char>) -> bool {
    &&& summary.uid == key.0
    &&& summary.date == key.1
    &&& summary.from@ == bare_address(trimmed(sender))
}

/// `view` is the inbox view of the planned messages, given the value of the
/// From field that the mailbox returned for each.
pub open spec fn is_view_of(
    view: Seq<MailSummary>,
    plan: Seq<MessageKey>,
    senders: Seq<String>,
) -> bool {
    &&& view.len() == plan.len()
    &&& senders.len() == plan.len()
    &&& forall|i: int|
        0 <= i < plan.len() ==> summarizes(#[trigger] view[i], plan[i], senders[i]@)
}

/// The inbox line of one message, from its key and the value of its From
/// field.
pub fn summarize(key: MessageKey, sender: &str) -> (summary: MailSummary)
    ensures
        summarizes(summary, key, sender@),
{
    MailSummary { uid: key.0, from: sender_address(sender), date: key.1 }
}

/// Builds the inbox view of the planned messages.  `senders` holds, for each
/// planned message in turn, the value of the From field that the mailbox
/// returned for it.  The view has one line for each planned message, in the
/// order of the plan.  It fails, with `MailError::Fetch`, if and only if the
/// mailbox returned a sender for more or for fewer messages than were
/// planned.
pub fn build_view(plan: &Vec<MessageKey>, senders: &Vec<String>) -> (out: Result<
    Vec<MailSummary>,
    MailError,
>)
    ensures
        match out {
            Ok(view) => is_view_of(view@, plan@, senders@),
            Err(e) => e == MailError::Fetch && senders@.len() != plan@.len(),
        },
{
    if senders.len() != plan.len() {
        return Err(MailError::Fetch);
    }
    let mut view: Vec<MailSummary> = Vec::new();
    let mut i: usize = 0;
    while i < plan.len()
        invariant
            i <= plan.len(),
            senders.len() == plan.len(),
            view@.len() == i,
            forall|j: int| 0 <= j < i ==> summarizes(#[trigger] view@[j], plan@[j], senders@[j]@),
        decreases plan.len() - i,
    {
        view.push(summarize(plan[i], senders[i].as_str()));
        i += 1;
    }
    Ok(view)
}

/// An inbox view lists `min(count, total)` messages, from the most recent to
/// the oldest, where `total` is the number of messages that the mailbox
/// listed with an identifier and a moment of receipt.
pub proof fn lemma_view_order_and_size(
    view: Seq<MailSummary>,
    entries: Seq<(Option<u32>, Option<ReceivedAt>)>,
    count: nat,
    senders: Seq<String>,
)
    requires
        is_view_of(view, newest(listed_keys(entries), count), senders),
    ensures
        view.len() == if count <= listed_keys(entries).len() {
            count
        } else {
            listed_keys(entries).len()
        },
        forall|i: int, j: int|
            0 <= i < j < view.len() ==> !newer(
                (#[trigger] view[j]).date,
                (#[trigger] view[i]).date,
            ),
{
    let plan = newest(listed_keys(entries), count);
    lemma_newest(listed_keys(entries), count);
    assert forall|i: int, j: int| 0 <= i < j < view.len() implies !newer(
        (#[trigger] view[j]).date,
        (#[trigger] view[i]).date,
    ) by {
        assert(summarizes(view[i], plan[i], senders[i]@));
        assert(summarizes(view[j], plan[j], senders[j]@));
        assert(!newer(plan[j].1, plan[i].1));
    }
}

/// Two views of one and the same state of the mailbox, with the same
/// `count`, agree line by line: same identifiers, same senders, same moments
/// of receipt, in the same order.  The state of the mailbox is what it lists
/// and what it returns as the sender of each listed message.
pub proof fn lemma_view_repeatable(
    first: Seq<MailSummary>,
    second: Seq<MailSummary>,
    entries: Seq<(Option<u32>, Option<ReceivedAt>)>,
    count: nat,
    senders: Seq<String>,
)
    requires
        is_view_of(first, newest(listed_keys(entries), count), senders),
        is_view_of(second, newest(listed_keys(entries), count), senders),
    ensures
        first.len() == second.len(),
        forall|i: int|
            0 <= i < first.len() ==> (#[trigger] first[i]).uid == second[i].uid && first[i].from@
                == second[i].from@ && first[i].date == second[i].date,
{
    assert forall|i: int| 0 <= i < first.len() implies (#[trigger] first[i]).uid == second[i].uid
        && first[i].from@ == second[i].from@ && first[i].date == second[i].date by {
        let plan = newest(listed_keys(entries), count);
        assert(summarizes(first[i], plan[i], senders[i]@));
        assert(summarizes(second[i], plan[i], senders[i]@));
    }
}

/// Every key among the listed keys comes from a listed entry with that
/// identifier.
pub proof fn lemma_listed_keys_are_listed(
    entries: Seq<(Option<u32>, Option<ReceivedAt>)>,
    key: MessageKey,
)
    requires
        listed_keys(entries).contains(key),
    ensures
        exists|k: int| 0 <= k < entries.len() && (#[trigger] entries[k]).0 == Some(key.0),
    decreases entries.len(),
{
    if entries.len() > 0 {
        let before = listed_keys(entries.drop_last());
        if before.contains(key) {
            lemma_listed_keys_are_listed(entries.drop_last(), key);
            let k = choose|k: int|
                0 <= k < entries.drop_last().len() && (#[trigger] entries.drop_last()[k]).0 == Some(
                    key.0,
                );
            assert(entries[k] == entries.drop_last()[k]);
        } else {
            let all = listed_keys(entries);
            let at = choose|i: int| 0 <= i < all.len() && all[i] == key;
            if at < before.len() {
                assert(before[at] == key);
                assert(false);
            }
            assert(entries[entries.len() - 1].0 == Some(key.0));
        }
    }
}

/// A view shows only messages that the mailbox listed: a message whose
/// identifier is in no listed entry, such as one that was purged before the
/// listing, is in no line of the view.
pub proof fn lemma_view_shows_only_listed(
    view: Seq<MailSummary>,
    entries: Seq<(Option<u32>, Option<ReceivedAt>)>,
    count: nat,
    senders: Seq<String>,
    uid: u32,
)
    requires
        is_view_of(view, newest(listed_keys(entries), count), senders),
        forall|k: int| 0 <= k < entries.len() ==> (#[trigger] entries[k]).0 != Some(uid),
    ensures
        forall|i: int| 0 <= i < view.len() ==> (#[trigger] view[i]).uid != uid,
{
    let keys = listed_keys(entries);
    let plan = newest(keys, count);
    lemma_newest(keys, count);
    assert forall|i: int| 0 <= i < view.len() implies (#[trigger] view[i]).uid != uid by {
        assert(summarizes(view[i], plan[i], senders[i]@));
        assert(keys.contains(plan[i]));
        lemma_listed_keys_are_listed(entries, plan[i]);
    }
}

/// A mailbox that lists no message gives the empty view, and building it
/// does not fail.
pub proof fn lemma_empty_mailbox_empty_view(
    entries: Seq<(Option<u32>, Option<ReceivedAt>)>,
    count: nat,
)
    requires
        listed_keys(entries).len() == 0,
    ensures
        newest(listed_keys(entries), count).len() == 0,
        is_view_of(
            Seq::<MailSummary>::empty(),
            newest(listed_keys(entries), count),
            Seq::<String>::empty(),
        ),
{
    lemma_newest(listed_keys(entries), count);
}

} // verus!
