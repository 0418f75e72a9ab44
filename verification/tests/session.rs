use mail_reader::error::{Fault, MailError};
use mail_reader::session::{
    first_header, full_headers, next_step, raw_message, sender_and_date, Operation, Request,
    Step,
};

#[test]
fn every_operation_selects_the_inbox_first() {
    let operations = [
        Operation::ListSummaryKeys,
        Operation::FetchSenderAndDate(7),
        Operation::FetchFullHeaders(7),
        Operation::FetchRawBody(7),
        Operation::MarkDeletedAndPurge(7),
    ];
    for op in operations {
        let plan = op.requests();
        assert!(plan.len() >= 2);
        assert_eq!(plan[0], Request::SelectInbox);
        assert!(plan[1..].iter().all(|r| *r != Request::SelectInbox));
    }
}

#[test]
fn operations_are_carried_out_by_these_requests() {
    assert_eq!(
        Operation::ListSummaryKeys.requests(),
        vec![Request::SelectInbox, Request::FetchKeys]
    );
    assert_eq!(
        Operation::FetchSenderAndDate(3).requests(),
        vec![Request::SelectInbox, Request::FetchSender(3)]
    );
    assert_eq!(
        Operation::FetchFullHeaders(4).requests(),
        vec![Request::SelectInbox, Request::FetchHeaders(4)]
    );
    assert_eq!(
        Operation::FetchRawBody(5).requests(),
        vec![Request::SelectInbox, Request::FetchMessage(5)]
    );
    assert_eq!(
        Operation::MarkDeletedAndPurge(6).requests(),
        vec![Request::SelectInbox, Request::MarkDeleted(6), Request::Expunge]
    );
}

#[test]
fn requests_are_worded_for_the_mailbox() {
    let select = Request::SelectInbox;
    assert_eq!((select.folder(), select.messages().as_str(), select.query()), ("INBOX", "", ""));
    let keys = Request::FetchKeys;
    assert_eq!(
        (keys.folder(), keys.messages().as_str(), keys.query()),
        ("", "1:*", "(UID INTERNALDATE)")
    );
    let sender = Request::FetchSender(4294967295);
    assert_eq!(sender.messages(), "4294967295");
    assert_eq!(sender.query(), "BODY.PEEK[HEADER.FIELDS (FROM DATE)]");
    let headers = Request::FetchHeaders(12);
    assert_eq!(headers.messages(), "12");
    assert_eq!(headers.query(), "BODY.PEEK[HEADER.FIELDS (FROM SUBJECT DATE)]");
    let message = Request::FetchMessage(0);
    assert_eq!(message.messages(), "0");
    assert_eq!(message.query(), "RFC822");
    let mark = Request::MarkDeleted(105);
    assert_eq!(mark.messages(), "105");
    assert_eq!(mark.query(), "+FLAGS (\\Deleted)");
    let purge = Request::Expunge;
    assert_eq!((purge.folder(), purge.messages().as_str(), purge.query()), ("", "", ""));
    assert_eq!(mark.folder(), "");
}

#[test]
fn sender_and_date_come_from_the_first_header_block() {
    let answer = vec![
        None,
        Some(b"Date: Tue, 3 Jun 2025 14:05:09 +0200\r\nFrom: Jane <jane@x.com>\r\n\r\n".to_vec()),
        Some(b"From: other@x.com\r\n".to_vec()),
    ];
    assert_eq!(
        sender_and_date(&answer),
        Ok(("Jane <jane@x.com>".to_string(), "Tue, 3 Jun 2025 14:05:09 +0200".to_string()))
    );
    assert_eq!(sender_and_date(&vec![Some(Vec::new())]), Ok((String::new(), String::new())));
    assert_eq!(sender_and_date(&vec![None]), Err(MailError::Fetch));
    assert_eq!(sender_and_date(&Vec::new()), Err(MailError::Fetch));
}

#[test]
fn full_headers_come_from_the_first_header_block() {
    let answer = vec![Some(b"Subject: Hi\r\nDate: d\r\nFrom: a@b.c\r\n".to_vec())];
    assert_eq!(
        full_headers(&answer),
        Ok(("a@b.c".to_string(), "Hi".to_string(), "d".to_string()))
    );
    assert_eq!(full_headers(&vec![None, None]), Err(MailError::Fetch));
    assert_eq!(full_headers(&Vec::new()), Err(MailError::Fetch));
}

#[test]
fn raw_message_is_the_body_of_the_first_part_of_the_answer() {
    let answer = vec![Some(b"one".to_vec()), Some(b"two".to_vec())];
    assert_eq!(raw_message(&answer), Ok(&b"one".to_vec()));
    let answer = vec![None, Some(b"two".to_vec())];
    assert_eq!(raw_message(&answer), Err(MailError::Fetch));
    assert_eq!(raw_message(&Vec::new()), Err(MailError::Fetch));
    assert_eq!(raw_message(&vec![Some(Vec::new())]), Ok(&Vec::new()));
}

#[test]
fn faults_amount_to_errors_of_the_four_kinds() {
    assert_eq!(MailError::of_fault(Fault::Refused, true), MailError::Auth);
    assert_eq!(MailError::of_fault(Fault::Refused, false), MailError::Fetch);
    assert_eq!(MailError::of_fault(Fault::Network, true), MailError::Transport);
    assert_eq!(MailError::of_fault(Fault::Network, false), MailError::Transport);
    assert_eq!(MailError::of_fault(Fault::Garbled, true), MailError::Transport);
    assert_eq!(MailError::of_fault(Fault::Garbled, false), MailError::Transport);
}

#[test]
fn errors_say_what_went_wrong() {
    assert_eq!(MailError::Auth.message(), "the mailbox refused the credentials");
    assert_eq!(MailError::Transport.message(), "the connection to the mailbox failed");
    assert_eq!(MailError::Fetch.message(), "the mailbox returned nothing for the request");
    assert_eq!(MailError::Parse.message(), "the message is malformed");
}

#[test]
fn first_header_block_of_an_answer_is_taken() {
    let answer = vec![None, Some(b"a".to_vec()), Some(b"b".to_vec())];
    assert_eq!(first_header(&answer), Some(&b"a".to_vec()));
    assert_eq!(first_header(&vec![None, None]), None);
    assert_eq!(first_header(&Vec::new()), None);
}

#[test]
fn sender_of_an_answer_is_the_sender_of_its_header_block() {
    let block = b"Subject: s\r\nFrom: Jane Doe <jane@x.com>\r\n".to_vec();
    let (sender, date) = sender_and_date(&vec![Some(block.clone())]).unwrap();
    assert_eq!(sender, "Jane Doe <jane@x.com>");
    assert_eq!(date, "");
    assert_eq!(
        mail_reader::headers::sender_address(&sender),
        mail_reader::headers::summary_sender(&block)
    );
}

#[test]
fn operation_is_carried_out_request_by_request() {
    let op = Operation::MarkDeletedAndPurge(7);
    assert_eq!(next_step(op, 0, None), Step::Send(Request::SelectInbox));
    assert_eq!(next_step(op, 1, None), Step::Send(Request::MarkDeleted(7)));
    assert_eq!(next_step(op, 2, None), Step::Send(Request::Expunge));
    assert_eq!(next_step(op, 3, None), Step::Done);
    assert_eq!(next_step(op, 4, None), Step::Done);
    assert_eq!(next_step(op, usize::MAX, None), Step::Done);
    let op = Operation::FetchRawBody(9);
    assert_eq!(next_step(op, 0, None), Step::Send(Request::SelectInbox));
    assert_eq!(next_step(op, 1, None), Step::Send(Request::FetchMessage(9)));
    assert_eq!(next_step(op, 2, None), Step::Done);
}

#[test]
fn operation_fails_as_a_whole_at_the_first_fault() {
    let operations = [
        Operation::ListSummaryKeys,
        Operation::FetchSenderAndDate(7),
        Operation::FetchFullHeaders(7),
        Operation::FetchRawBody(7),
        Operation::MarkDeletedAndPurge(7),
    ];
    for op in operations {
        for sent in 0..5usize {
            assert_eq!(
                next_step(op, sent, Some(Fault::Refused)),
                Step::Failed(MailError::Fetch)
            );
            assert_eq!(
                next_step(op, sent, Some(Fault::Network)),
                Step::Failed(MailError::Transport)
            );
            assert_eq!(
                next_step(op, sent, Some(Fault::Garbled)),
                Step::Failed(MailError::Transport)
            );
        }
    }
}
