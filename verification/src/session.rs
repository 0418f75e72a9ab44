//! The requests that the reader makes of its mailbox, and what it reads out
//! of the answers.
//!
//! The connection itself is held elsewhere.  Here stands what is asked, in
//! which order, and how an answer is taken apart.  Every operation selects
//! the inbox before anything else, so that none depends on what was selected
//! before it.
//!
//! What the requests do to a mailbox that keeps to the protocol is written
//! down as well, over a plain model of the inbox, so that it can be said what
//! deleting a message means for the views that follow.

use vstd::prelude::*;
use vstd::utf8::{decode_utf8, valid_utf8};
use crate::error::{error_of, Fault, MailError};
use crate::headers::{field_text, parse_headers};
use crate::inbox::{
    is_view_of, lemma_view_shows_only_listed, listed_keys, newest, MailSummary, ReceivedAt,
};
use crate::text::{decimal, decimal_text, lossy_text};

verus! {

/// One request to the mailbox.
#[derive(Debug, Clone, Copy, PartialEq, Eq, Structural)]
pub enum Request {
    /// Select the inbox.
    SelectInbox,
    /// Fetch identifier and moment of receipt of every message.
    FetchKeys,
    /// Fetch the From and Date fields of one message, leaving it unread.
    FetchSender(u32),
    /// Fetch the From, Subject and Date fields of one message, leaving it
    /// unread.
    FetchHeaders(u32),
    /// Fetch one message whole.
    FetchMessage(u32),
    /// Flag one message as deleted.
    MarkDeleted(u32),
    /// Remove for good every message of the folder that is flagged as deleted.
    Expunge,
}

/// One operation of the reader on its mailbox.
#[derive(Debug, Clone, Copy, PartialEq, Eq, Structural)]
pub enum Operation {
    ListSummaryKeys,
    FetchSenderAndDate(u32),
    FetchFullHeaders(u32),
    FetchRawBody(u32),
    MarkDeletedAndPurge(u32),
}

/// The requests that carry out an operation, in order.
pub open spec fn plan_of(op: Operation) -> Seq<Request> {
    match op {
        Operation::ListSummaryKeys => seq![Request::SelectInbox, Request::FetchKeys],
        Operation::FetchSenderAndDate(uid) => seq![Request::SelectInbox, Request::FetchSender(uid)],
        Operation::FetchFullHeaders(uid) => seq![Request::SelectInbox, Request::FetchHeaders(uid)],
        Operation::FetchRawBody(uid) => seq![Request::SelectInbox, Request::FetchMessage(uid)],
        Operation::MarkDeletedAndPurge(uid) => seq![
            Request::SelectInbox,
            Request::MarkDeleted(uid),
            Request::Expunge,
        ],
    }
}

/// The folder that a request names; empty for a request that names none.
pub open spec fn folder_of(request: Request) -> Seq<char> {
    match request {
        Request::SelectInbox => "INBOX"@,
        _ => Seq::empty(),
    }
}

/// The messages that a request is about: all of them by position, or one by
/// its identifier in decimal notation; empty for a request that names none.
pub open spec fn messages_of(request: Request) -> Seq<char> {
    match request {
        Request::SelectInbox => Seq::empty(),
        Request::FetchKeys => "1:*"@,
        Request::FetchSender(uid) => decimal(uid as int),
        Request::FetchHeaders(uid) => decimal(uid as int),
        Request::FetchMessage(uid) => decimal(uid as int),
        Request::MarkDeleted(uid) => decimal(uid as int),
        Request::Expunge => Seq::empty(),
    }
}

/// What a request asks for of its messages, or does to them; empty for a
/// request without such a part.
pub open spec fn query_of(request: Request) -> Seq<char> {
    match request {
        Request::SelectInbox => Seq::empty(),
        Request::FetchKeys => "(UID INTERNALDATE)"@,
        Request::FetchSender(_) => "BODY.PEEK[HEADER.FIELDS (FROM DATE)]"@,
        Request::FetchHeaders(_) => "BODY.PEEK[HEADER.FIELDS (FROM SUBJECT DATE)]"@,
        Request::FetchMessage(_) => "RFC822"@,
        Request::MarkDeleted(_) => "+FLAGS (\\Deleted)"@,
        Request::Expunge => Seq::empty(),
    }
}

/// Every operation selects the inbox first, and only then asks anything of
/// a message.
pub proof fn lemma_inbox_selected_first(op: Operation)
    ensures
        plan_of(op).len() >= 2,
        plan_of(op)[0] == Request::SelectInbox,
        forall|i: int| 1 <= i < plan_of(op).len() ==> plan_of(op)[i] != Request::SelectInbox,
{
}

/// Deleting flags the one message and then purges the folder; nothing is
/// purged before the flag is set.
pub proof fn lemma_delete_flags_then_purges(uid: u32)
    ensures
        plan_of(Operation::MarkDeletedAndPurge(uid)) == seq![
            Request::SelectInbox,
            Request::MarkDeleted(uid),
            Request::Expunge,
        ],
{
}

/// What is to be done next in carrying out an operation.
#[derive(Debug, Clone, Copy, PartialEq, Eq, Structural)]
pub enum Step {
    /// Send this request.
    Send(Request),
    /// Every request has gone through: the operation is done.
    Done,
    /// A request has failed.  The operation has failed as a whole, with this
    /// error, and nothing more is sent.
    Failed(MailError),
}

/// The step that follows when `sent` requests of the operation have gone
/// through and `fault` is what the last one sent ran into, if anything: after
/// a fault the operation has failed; else the next request of its plan is
/// sent, if one is left.
pub open spec fn step_after(op: Operation, sent: int, fault: Option<Fault>) -> Step {
    match fault {
        Some(f) => Step::Failed(error_of(f, false)),
        None => if 0 <= sent < plan_of(op).len() {
            Step::Send(plan_of(op)[sent])
        } else {
            Step::Done
        },
    }
}

/// An operation is carried out request by request, in the order of its plan,
/// and fails as a whole at the first request that fails: no request is sent
/// after a fault, whatever is left of the plan.
pub proof fn lemma_first_fault_ends_operation(op: Operation, sent: int, fault: Fault)
    ensures
        step_after(op, sent, Some(fault)) == Step::Failed(error_of(fault, false)),
        !(step_after(op, sent, Some(fault)) is Send),
        forall|i: int|
            0 <= i < plan_of(op).len() ==> #[trigger] step_after(op, i, None) == Step::Send(
                plan_of(op)[i],
            ),
        step_after(op, plan_of(op).len() as int, None) == Step::Done,
{
}

/// A message as a mailbox holds it in its inbox: its identifier, the moment
/// of its receipt, and whether it is flagged as deleted.
pub ghost struct Stored {
    pub uid: u32,
    pub received: ReceivedAt,
    pub deleted: bool,
}

/// The message with its flag set if it is the one with the identifier `uid`.
pub open spec fn flagged(message: Stored, uid: u32) -> Stored {
    if message.uid == uid {
        Stored { deleted: true, ..message }
    } else {
        message
    }
}

/// What a request does to the inbox of a mailbox that keeps to the protocol:
/// flagging flags every message of the given identifier, purging removes
/// every flagged message, and no other request changes what the inbox holds.
pub open spec fn effect_of(request: Request, inbox: Seq<Stored>) -> Seq<Stored> {
    match request {
        Request::MarkDeleted(uid) => inbox.map_values(|m: Stored| flagged(m, uid)),
        Request::Expunge => inbox.filter(|m: Stored| !m.deleted),
        _ => inbox,
    }
}

/// The inbox after a run of requests, carried out in order.
pub open spec fn carried_out(plan: Seq<Request>, inbox: Seq<Stored>) -> Seq<Stored>
    decreases plan.len(),
{
    if plan.len() == 0 {
        inbox
    } else {
        carried_out(plan.drop_first(), effect_of(plan.first(), inbox))
    }
}

/// What the mailbox lists of its inbox: identifier and moment of receipt of
/// every message, in the order in which it holds them.
pub open spec fn listing_of(inbox: Seq<Stored>) -> Seq<(Option<u32>, Option<ReceivedAt>)> {
    inbox.map_values(|m: Stored| (Some(m.uid), Some(m.received)))
}

/// The inbox after the message `uid` has been deleted.
pub open spec fn after_delete(uid: u32, inbox: Seq<Stored>) -> Seq<Stored> {
    carried_out(plan_of(Operation::MarkDeletedAndPurge(uid)), inbox)
}

/// Only deleting changes what the inbox holds.
pub proof fn lemma_reading_changes_nothing(op: Operation, inbox: Seq<Stored>)
    requires
        !(op is MarkDeletedAndPurge),
    ensures
        carried_out(plan_of(op), inbox) == inbox,
{
    reveal_with_fuel(carried_out, 3);
    let plan = plan_of(op);
    assert(plan.drop_first().drop_first() == Seq::<Request>::empty());
}

/// After a message has been deleted, the inbox holds no message of its
/// identifier and no message that is flagged as deleted, whichever request
/// had set the flag; and it holds nothing that it did not hold before.
pub proof fn lemma_deleted_is_gone(uid: u32, inbox: Seq<Stored>)
    ensures
        forall|i: int|
            0 <= i < after_delete(uid, inbox).len() ==> {
                let m = #[trigger] after_delete(uid, inbox)[i];
                m.uid != uid && !m.deleted && inbox.contains(m)
            },
{
    let plan = plan_of(Operation::MarkDeletedAndPurge(uid));
    let kept = |m: Stored| !m.deleted;
    let marked = inbox.map_values(|m: Stored| flagged(m, uid));
    let after = marked.filter(kept);
    reveal_with_fuel(carried_out, 4);
    assert(plan.drop_first() == seq![Request::MarkDeleted(uid), Request::Expunge]);
    assert(plan.drop_first().drop_first() == seq![Request::Expunge]);
    assert(plan.drop_first().drop_first().drop_first() == Seq::<Request>::empty());
    assert(after_delete(uid, inbox) == after);
    assert forall|i: int| 0 <= i < after.len() implies {
        let m = #[trigger] after[i];
        m.uid != uid && !m.deleted && inbox.contains(m)
    } by {
        let m = after[i];
        marked.lemma_filter_pred(kept, i);
        assert(after.contains(m));
        marked.lemma_filter_contains_rev(kept, m);
        let k = choose|k: int| 0 <= k < marked.len() && marked[k] == m;
        assert(marked[k] == flagged(inbox[k], uid));
        assert(inbox[k] == m);
    }
}

/// A deletion that fails removes nothing: as long as the purge has not gone
/// through, the inbox holds the messages that it held, in their order; at
/// most the flag of the message to delete is set.
pub proof fn lemma_failed_delete_removes_nothing(uid: u32, inbox: Seq<Stored>, sent: int)
    requires
        0 <= sent <= 2,
    ensures
        ({
            let plan = plan_of(Operation::MarkDeletedAndPurge(uid));
            let left = carried_out(plan.take(sent), inbox);
            &&& left.len() == inbox.len()
            &&& forall|i: int|
                0 <= i < inbox.len() ==> (#[trigger] left[i]) == inbox[i] || left[i] == flagged(
                    inbox[i],
                    uid,
                )
        }),
{
    let plan = plan_of(Operation::MarkDeletedAndPurge(uid));
    let done = plan.take(sent);
    reveal_with_fuel(carried_out, 3);
    if sent >= 1 {
        assert(done.first() == Request::SelectInbox);
        if sent == 2 {
            assert(done.drop_first().first() == Request::MarkDeleted(uid));
            assert(done.drop_first().drop_first() == Seq::<Request>::empty());
        } else {
            assert(done.drop_first() == Seq::<Request>::empty());
        }
    }
}

/// After a message has been deleted, no inbox view shows it, until the
/// mailbox holds a message of that identifier again.
pub proof fn lemma_no_view_shows_deleted(
    uid: u32,
    inbox: Seq<Stored>,
    count: nat,
    senders: Seq<String>,
    view: Seq<MailSummary>,
)
    requires
        is_view_of(
            view,
            newest(listed_keys(listing_of(after_delete(uid, inbox))), count),
            senders,
        ),
    ensures
        forall|i: int| 0 <= i < view.len() ==> (#[trigger] view[i]).uid != uid,
{
    let after = after_delete(uid, inbox);
    let entries = listing_of(after);
    lemma_deleted_is_gone(uid, inbox);
    assert forall|k: int| 0 <= k < entries.len() implies (#[trigger] entries[k]).0 != Some(
        uid,
    ) by {
        assert(after[k].uid != uid);
    }
    lemma_view_shows_only_listed(view, entries, count, senders, uid);
}

impl Operation {
    /// The requests that carry out the operation, in order.
    pub fn requests(&self) -> (plan: Vec<Request>)
        ensures
            plan@ == plan_of(*self),
    {
        let mut plan: Vec<Request> = Vec::new();
        plan.push(Request::SelectInbox);
        match *self {
            Operation::ListSummaryKeys => {
                plan.push(Request::FetchKeys);
            },
            Operation::FetchSenderAndDate(uid) => {
                plan.push(Request::FetchSender(uid));
            },
            Operation::FetchFullHeaders(uid) => {
                plan.push(Request::FetchHeaders(uid));
            },
            Operation::FetchRawBody(uid) => {
                plan.push(Request::FetchMessage(uid));
            },
            Operation::MarkDeletedAndPurge(uid) => {
                plan.push(Request::MarkDeleted(uid));
                plan.push(Request::Expunge);
            },
        }
        plan
    }
}

/// Says what is to be done next in carrying out an operation, when `sent` of
/// its requests have gone through and `fault` is what the last one sent ran
/// into, if anything.
pub fn next_step(op: Operation, sent: usize, fault: Option<Fault>) -> (step: Step)
    ensures
        step == step_after(op, sent as int, fault),
{
    match fault {
        Some(f) => Step::Failed(MailError::of_fault(f, false)),
        None => {
            let plan = op.requests();
            if sent < plan.len() {
                Step::Send(plan[sent])
            } else {
                Step::Done
            }
        },
    }
}

impl Request {
    /// The folder that the request names; empty where it names none.
    pub fn folder(&self) -> (text: &'static str)
        ensures
            text@ == folder_of(*self),
    {
        match *self {
            Request::SelectInbox => "INBOX",
            _ => {
                proof {
                    reveal_strlit("");
                }
                ""
            },
        }
    }

    /// The messages that the request is about; empty where it names none.
    pub fn messages(&self) -> (text: String)
        ensures
            text@ == messages_of(*self),
    {
        match *self {
            Request::SelectInbox => String::new(),
            Request::FetchKeys => "1:*".to_owned(),
            Request::FetchSender(uid) => decimal_text(uid as usize),
            Request::FetchHeaders(uid) => decimal_text(uid as usize),
            Request::FetchMessage(uid) => decimal_text(uid as usize),
            Request::MarkDeleted(uid) => decimal_text(uid as usize),
            Request::Expunge => String::new(),
        }
    }

    /// What the request asks for of its messages, or does to them; empty
    /// where it has no such part.
    pub fn query(&self) -> (text: &'static str)
        ensures
            text@ == query_of(*self),
    {
        proof {
            reveal_strlit("");
        }
        match *self {
            Request::SelectInbox => "",
            Request::FetchKeys => "(UID INTERNALDATE)",
            Request::FetchSender(_) => "BODY.PEEK[HEADER.FIELDS (FROM DATE)]",
            Request::FetchHeaders(_) => "BODY.PEEK[HEADER.FIELDS (FROM SUBJECT DATE)]",
            Request::FetchMessage(_) => "RFC822",
            Request::MarkDeleted(_) => "+FLAGS (\\Deleted)",
            Request::Expunge => "",
        }
    }
}

/// The first header block among the parts of a server's answer, if any part
/// carries one.
pub open spec fn first_block(answer: Seq<Option<Vec<u8>>>) -> Option<Vec<u8>>
    decreases answer.len(),
{
    if answer.len() == 0 {
        None
    } else if answer.first().is_some() {
        answer.first()
    } else {
        first_block(answer.drop_first())
    }
}

/// Finds the first header block among the parts of a server's answer.
pub fn first_header(answer: &Vec<Option<Vec<u8>>>) -> (block: Option<&Vec<u8>>)
    ensures
        match block {
            Some(b) => first_block(answer@) == Some(*b),
            None => first_block(answer@).is_none(),
        },
{
    let mut i: usize = 0;
    assert(answer@.skip(0) == answer@);
    while i < answer.len()
        invariant
            i <= answer.len(),
            first_block(answer@) == first_block(answer@.skip(i as int)),
        decreases answer.len() - i,
    {
        assert(answer@.skip(i as int).first() == answer@[i as int]);
        assert(answer@.skip(i as int).drop_first() == answer@.skip(i + 1));
        match &answer[i] {
            Some(b) => {
                return Some(b);
            },
            None => {},
        }
        i += 1;
    }
    None
}

/// Reads the From and Date fields out of the answer to `FetchSender`: the two
/// fields of the first header block that the answer carries, a block of
/// well-formed UTF-8 read as the text that it encodes.  Fails with
/// `MailError::Fetch` if and only if the answer carries no header block.
pub fn sender_and_date(answer: &Vec<Option<Vec<u8>>>) -> (out: Result<(String, String), MailError>)
    ensures
        match first_block(answer@) {
            Some(block) => out matches Ok(fields) && fields.0@ == field_text(
                lossy_text(block@),
                "from"@,
            ) && fields.1@ == field_text(lossy_text(block@), "date"@) && (valid_utf8(block@) ==> {
                &&& fields.0@ == field_text(decode_utf8(block@), "from"@)
                &&& fields.1@ == field_text(decode_utf8(block@), "date"@)
            }),
            None => out == Err::<(String, String), MailError>(MailError::Fetch),
        },
{
    match first_header(answer) {
        Some(block) => {
            let fields = parse_headers(block.as_slice());
            Ok((fields.0, fields.2))
        },
        None => Err(MailError::Fetch),
    }
}

/// Reads the From, Subject and Date fields out of the answer to
/// `FetchHeaders`: the three fields of the first header block that the answer
/// carries, a block of well-formed UTF-8 read as the text that it encodes.
/// Fails with `MailError::Fetch` if and only if the answer carries no header
/// block.
pub fn full_headers(answer: &Vec<Option<Vec<u8>>>) -> (out: Result<
    (String, String, String),
    MailError,
>)
    ensures
        match first_block(answer@) {
            Some(block) => out matches Ok(fields) && fields.0@ == field_text(
                lossy_text(block@),
                "from"@,
            ) && fields.1@ == field_text(lossy_text(block@), "subject"@) && fields.2@
                == field_text(lossy_text(block@), "date"@) && (valid_utf8(block@) ==> {
                &&& fields.0@ == field_text(decode_utf8(block@), "from"@)
                &&& fields.1@ == field_text(decode_utf8(block@), "subject"@)
                &&& fields.2@ == field_text(decode_utf8(block@), "date"@)
            }),
            None => out == Err::<(String, String, String), MailError>(MailError::Fetch),
        },
{
    match first_header(answer) {
        Some(block) => Ok(parse_headers(block.as_slice())),
        None => Err(MailError::Fetch),
    }
}

/// Reads the raw message out of the answer to `FetchMessage`: the body of the
/// answer's first part.  Fails with `MailError::Fetch` if and only if the
/// answer is empty or its first part carries no body.
pub fn raw_message(answer: &Vec<Option<Vec<u8>>>) -> (out: Result<&Vec<u8>, MailError>)
    ensures
        match out {
            Ok(raw) => answer@.len() > 0 && answer@[0] == Some(*raw),
            Err(e) => e == MailError::Fetch && (answer@.len() == 0 || answer@[0].is_none()),
        },
{
    if answer.len() == 0 {
        return Err(MailError::Fetch);
    }
    match &answer[0] {
        Some(raw) => Ok(raw),
        None => Err(MailError::Fetch),
    }
}

} // verus!
