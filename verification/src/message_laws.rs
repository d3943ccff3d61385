//! What holds of messages, replies and file paths, said of what they hold.

use vstd::prelude::*;

use crate::daemon::WaitEnd;
use crate::path::PathPart;
use crate::protocol::OutgoingMessage;

verus! {

use crate::daemon::{counted, reported, wait_outcome};
use crate::path::{named, parts_view, PathPartView};
use crate::protocol::MessageView;
use crate::text::{digit, numeral};

/// The value of a message is what it holds.
pub proof fn message_value_is_the_message(message: OutgoingMessage)
    ensures
        message matches OutgoingMessage::Execute {
            task_id,
            task_type,
            task_data,
            max_execution_seconds,
        } ==> message@ == (MessageView::Execute {
            task_id: task_id@,
            task_type: task_type@,
            task_data: task_data@,
            max_execution_seconds,
        }),
        message matches OutgoingMessage::MaxRetriesReached { task_id, task_type, task_data }
            ==> message@ == (MessageView::MaxRetriesReached {
            task_id: task_id@,
            task_type: task_type@,
            task_data: task_data@,
        }),
        message matches OutgoingMessage::Ack { task_id: Some(id), message: words } ==> message@ == (
        MessageView::Ack { task_id: Some(id@), message: words@ }),
        message matches OutgoingMessage::Ack { task_id: None, message: words } ==> message@ == (
        MessageView::Ack { task_id: None, message: words@ }),
        message matches OutgoingMessage::Error { task_id: Some(id), message: words } ==> message@
            == (MessageView::Error { task_id: Some(id@), message: words@ }),
        message matches OutgoingMessage::Error { task_id: None, message: words } ==> message@ == (
        MessageView::Error { task_id: None, message: words@ }),
        message matches OutgoingMessage::Progress { task_id, data } ==> message@ == (
        MessageView::Progress { task_id: task_id@, data: data@ }),
        message matches OutgoingMessage::Stats {
            total_enqueued,
            total_executed,
            total_failed,
            total_dlq,
            queue_depth,
            uptime_secs,
        } ==> message@ == (MessageView::Stats {
            total_enqueued,
            total_executed,
            total_failed,
            total_dlq,
            queue_depth,
            uptime_secs,
        }),
{
}

/// A client reports a success with the one word for it. Any other status is an error: in the words
/// of the client where it gives some.
pub proof fn only_success_is_a_success(status: Seq<char>, error_msg: Option<Seq<char>>)
    ensures
        reported(status, error_msg) is Ok <==> status == "success"@,
        status != "success"@ && error_msg is None ==> reported(status, error_msg) == Err::<
            (),
            Seq<char>,
        >("Unknown error"@),
        status != "success"@ && error_msg is Some ==> reported(status, error_msg) == Err::<
            (),
            Seq<char>,
        >(error_msg.unwrap()),
{
}

/// The wait for a result ends with what was reported, or with an error that says why it ended.
pub proof fn wait_ends_with_what_was_reported(end: WaitEnd)
    ensures
        end matches WaitEnd::Reported(Ok(_)) ==> wait_outcome(end) is Ok,
        end matches WaitEnd::Reported(Err(error)) ==> wait_outcome(end) == Err::<(), Seq<char>>(
            error@,
        ),
        end matches WaitEnd::Closed(reason) ==> wait_outcome(end) == Err::<(), Seq<char>>(reason@),
        end matches WaitEnd::TimedOut { seconds } ==> wait_outcome(end) == Err::<(), Seq<char>>(
            "Task execution timed out after "@ + numeral(seconds as nat, 10) + " seconds"@,
        ),
{
}

/// A counter goes up by one, and starts over at its end.
pub proof fn counter_goes_up_by_one(count: u64)
    ensures
        count < u64::MAX ==> counted(count) == count + 1,
        count == u64::MAX ==> counted(count) == 0,
{
}

/// The number that a text of digits stands for.
pub open spec fn read_number(text: Seq<char>, base: nat) -> nat
    decreases text.len(),
{
    if text.len() == 0 {
        0
    } else {
        let c = text.last();
        let value: nat = if c <= '9' {
            (c as nat - '0' as nat) as nat
        } else {
            (c as nat - 'a' as nat + 10) as nat
        };
        read_number(text.drop_last(), base) * base + value
    }
}

/// A numeral stands for its number, digit by digit, and has no leading zero.
pub proof fn numeral_stands_for_its_number(n: nat, base: nat)
    requires
        2 <= base <= 16,
    ensures
        read_number(numeral(n, base), base) == n,
        numeral(n, base).len() > 0,
        n > 0 ==> numeral(n, base)[0] != '0',
    decreases n,
{
    let text = numeral(n, base);
    if n < base {
        assert(text.drop_last() =~= Seq::empty());
        assert(text.last() == digit(n));
        assert(read_number(Seq::empty(), base) == 0);
        assert(read_number(text, base) == 0 * base + n);
    } else {
        vstd::arithmetic::div_mod::lemma_div_decreases(n as int, base as int);
        vstd::arithmetic::div_mod::lemma_div_non_zero(n as int, base as int);
        vstd::arithmetic::div_mod::lemma_fundamental_div_mod(n as int, base as int);
        vstd::arithmetic::div_mod::lemma_mod_bound(n as int, base as int);
        numeral_stands_for_its_number(n / base, base);
        assert(text.drop_last() =~= numeral(n / base, base));
        assert(text.last() == digit(n % base));
        assert(read_number(text, base) == (n / base) * base + n % base);
        assert(base * (n / base) == (n / base) * base) by (nonlinear_arith);
        assert(text[0] == numeral(n / base, base)[0]);
    }
}

/// A path whose file name is replaced ends in the new name, and is else what it was without its
/// old one.
pub proof fn file_name_is_replaced(parts: Seq<PathPartView>, name: Seq<char>)
    ensures
        named(parts, name).last() == PathPartView::Normal(name),
        parts.len() > 0 && parts.last() is Normal ==> named(parts, name).drop_last()
            == parts.drop_last(),
        parts.len() == 0 || !(parts.last() is Normal) ==> named(parts, name).drop_last() == parts,
{
    assert(named(parts, name).drop_last() =~= if parts.len() > 0 && parts.last() is Normal {
        parts.drop_last()
    } else {
        parts
    });
}

/// The value of a path is that of its components, each in its place.
pub proof fn path_value_is_its_components(parts: Seq<PathPart>, i: int)
    requires
        0 <= i < parts.len(),
    ensures
        parts_view(parts).len() == parts.len(),
        parts_view(parts)[i] == parts[i]@,
        parts[i] matches PathPart::Prefix(text) ==> parts[i]@ == PathPartView::Prefix(text@),
        parts[i] matches PathPart::Normal(text) ==> parts[i]@ == PathPartView::Normal(text@),
        parts[i] is RootDir <==> parts[i]@ is RootDir,
        parts[i] is CurDir <==> parts[i]@ is CurDir,
        parts[i] is ParentDir <==> parts[i]@ is ParentDir,
{
}

} // verus!
