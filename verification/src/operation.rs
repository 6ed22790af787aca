//! Operations as they run: what every sequence of host calls and replies keeps to.
use vstd::prelude::*;

use crate::calls::{answers, errno_after, Call, Reply, Step};
use crate::types::{Errno, InodeAltKey, ENOENT};

verus! {

/// Whether a call changes the directory tree.
pub open spec fn alters(call: Call<Seq<u8>>) -> bool {
    call is UnlinkAt || call is Rename
}

/// Whether `reply` says that a call succeeded that answers with a return value.
pub open spec fn succeeded(reply: Reply) -> bool {
    reply matches Reply::Sys { ret, .. } && ret >= 0
}

/// The descriptors that a call with this reply opens for the operation.
pub open spec fn opens(call: Call<Seq<u8>>, reply: Reply) -> Seq<i32> {
    if call is OpenAt && succeeded(reply) {
        seq![reply->Sys_ret]
    } else {
        Seq::empty()
    }
}

/// The descriptors that a call closes.
pub open spec fn closes(call: Call<Seq<u8>>) -> Seq<i32> {
    match call {
        Call::Close { fd } => seq![fd],
        _ => Seq::empty(),
    }
}

/// A descriptor as a sequence of at most one.
pub open spec fn optional(fd: Option<i32>) -> Seq<i32> {
    match fd {
        Some(fd) => seq![fd],
        None => Seq::empty(),
    }
}

/// An operation that failed with the host's number `errno` and has nothing left to close.
pub open spec fn refusal<N>(errno: i32) -> Step<N> {
    Step::Finished { result: Err(Errno::Host(errno)), close: None }
}

/// An operation that asks the host for one call after the other.
pub trait Operation: Sized {
    /// What the operation is waiting for.
    spec fn due(self) -> Step<Seq<u8>>;

    /// The operation once `reply` came to the call that was due.
    spec fn after(self, reply: Reply) -> Self;

    /// The descriptors that the operation has opened and not yet closed. At the end these are
    /// the ones that it hands on: to the table, or to be closed.
    spec fn holds(self) -> Seq<i32>;

    /// Whether the host has made the change.
    spec fn changed(self) -> bool;

    /// Whether the host is still to be asked for the change.
    spec fn untried(self) -> bool;

    /// How many replies the operation takes at most.
    spec fn remaining(self) -> nat;

    /// What each reply does.
    proof fn one_reply(self, reply: Reply)
        requires
            self.due() matches Step::Call(call) && answers(call, reply),
        ensures
            self.due() matches Step::Call(call) && {
                &&& self.holds() + opens(call, reply) == closes(call) + self.after(reply).holds()
                &&& self.after(reply).changed() <==> self.changed() || (alters(call) && succeeded(
                    reply,
                ))
                &&& alters(call) ==> self.untried() && !self.changed()
                &&& self.after(reply).untried() ==> self.untried() && !alters(call)
                &&& alters(call) && !succeeded(reply) ==> {
                    let errno = reply->Sys_errno;
                    ||| self.after(reply).due() matches Step::Finished { result, .. } && result
                        == Err::<(), Errno>(Errno::Host(errno))
                    ||| self.after(reply).due() matches Step::Call(Call::Close { .. }) && forall|
                        closed: Result<(), i32>,
                    |
                        (#[trigger] self.after(reply).after(Reply::Closed(closed))).due()
                            == refusal::<Seq<u8>>(errno_after(errno, closed))
                }
                &&& opens(call, reply).len() > 0 ==> self.holds().len() == 0
            },
            self.after(reply).remaining() < self.remaining(),
    ;

    /// What each state keeps to.
    proof fn one_state(self)
        ensures
            self.due() is Settle ==> self.changed(),
            self.due() matches Step::Finished { result, close } ==> {
                &&& self.changed() <==> result is Ok
                &&& self.holds() == optional(close)
            },
            self.due() matches Step::Call(Call::OpenAt { flags, .. }) ==> {
                &&& flags.nofollow
                &&& flags.cloexec
            },
    ;
}

/// The operation `start` after `replies`.
pub open spec fn reached<O: Operation>(start: O, replies: Seq<Reply>) -> O
    decreases replies.len(),
{
    if replies.len() == 0 {
        start
    } else {
        reached(start, replies.drop_last()).after(replies.last())
    }
}

/// Whether `replies` are replies to the calls that `start` asks for, one by one.
pub open spec fn possible<O: Operation>(start: O, replies: Seq<Reply>) -> bool
    decreases replies.len(),
{
    replies.len() == 0 || {
        &&& possible(start, replies.drop_last())
        &&& reached(start, replies.drop_last()).due() matches Step::Call(call)
        &&& answers(call, replies.last())
    }
}

/// The call that the last of `replies` answers.
pub open spec fn last_call<O: Operation>(start: O, replies: Seq<Reply>) -> Call<Seq<u8>> {
    reached(start, replies.drop_last()).due()->Call_0
}

/// The descriptors opened so far, in order.
pub open spec fn opened<O: Operation>(start: O, replies: Seq<Reply>) -> Seq<i32>
    decreases replies.len(),
{
    if replies.len() == 0 {
        Seq::empty()
    } else {
        opened(start, replies.drop_last()) + opens(last_call(start, replies), replies.last())
    }
}

/// The descriptors closed so far, in order.
pub open spec fn closed<O: Operation>(start: O, replies: Seq<Reply>) -> Seq<i32>
    decreases replies.len(),
{
    if replies.len() == 0 {
        Seq::empty()
    } else {
        closed(start, replies.drop_last()) + closes(last_call(start, replies))
    }
}

/// How many calls so far were meant to change the directory tree.
pub open spec fn attempts<O: Operation>(start: O, replies: Seq<Reply>) -> nat
    decreases replies.len(),
{
    if replies.len() == 0 {
        0
    } else {
        attempts(start, replies.drop_last()) + if alters(last_call(start, replies)) {
            1nat
        } else {
            0
        }
    }
}

/// How many of them did.
pub open spec fn changes<O: Operation>(start: O, replies: Seq<Reply>) -> nat
    decreases replies.len(),
{
    if replies.len() == 0 {
        0
    } else {
        changes(start, replies.drop_last()) + if alters(last_call(start, replies)) && succeeded(
            replies.last(),
        ) {
            1nat
        } else {
            0
        }
    }
}

/// Every descriptor that an operation opened was closed, once, or is held by it; and it never
/// holds more than one.
pub proof fn law_descriptors_balance<O: Operation>(start: O, replies: Seq<Reply>)
    requires
        start.holds() == Seq::<i32>::empty(),
        possible(start, replies),
    ensures
        opened(start, replies) == closed(start, replies) + reached(start, replies).holds(),
        reached(start, replies).holds().len() <= 1,
    decreases replies.len(),
{
    if replies.len() > 0 {
        let sofar = replies.drop_last();
        let before = reached(start, sofar);
        let call = last_call(start, replies);
        let reply = replies.last();
        law_descriptors_balance(start, sofar);
        before.one_reply(reply);
        assert(opened(start, replies) =~= closed(start, sofar) + (before.holds() + opens(
            call,
            reply,
        )));
        assert(closed(start, replies) + before.after(reply).holds() =~= closed(start, sofar) + (
        closes(call) + before.after(reply).holds()));
        assert((closes(call) + before.after(reply).holds()).len() == (before.holds() + opens(
            call,
            reply,
        )).len());
    }
}

/// An operation that is over has closed every descriptor that it opened, but for the one that
/// it leaves to be closed.
pub proof fn law_nothing_left_open<O: Operation>(start: O, replies: Seq<Reply>)
    requires
        start.holds() == Seq::<i32>::empty(),
        possible(start, replies),
        reached(start, replies).due() is Finished,
    ensures
        reached(start, replies).due() matches Step::Finished { close, .. } && opened(start, replies)
            == closed(start, replies) + optional(close),
{
    law_descriptors_balance(start, replies);
    reached(start, replies).one_state();
}

/// The host is asked at most once to change the tree. The operation succeeds, or goes on to
/// the table, exactly if the host did change it; and it fails exactly if the host did not.
pub proof fn law_success_means_change<O: Operation>(start: O, replies: Seq<Reply>)
    requires
        !start.changed(),
        possible(start, replies),
    ensures
        attempts(start, replies) <= 1,
        changes(start, replies) == if reached(start, replies).changed() {
            1nat
        } else {
            0
        },
        reached(start, replies).due() is Settle ==> changes(start, replies) == 1,
        reached(start, replies).due() matches Step::Finished { result, .. } ==> (result is Ok
            <==> changes(start, replies) == 1),
{
    lemma_attempts(start, replies);
    reached(start, replies).one_state();
}

proof fn lemma_attempts<O: Operation>(start: O, replies: Seq<Reply>)
    requires
        !start.changed(),
        possible(start, replies),
    ensures
        attempts(start, replies) <= 1,
        reached(start, replies).untried() ==> attempts(start, replies) == 0,
        changes(start, replies) == if reached(start, replies).changed() {
            1nat
        } else {
            0
        },
    decreases replies.len(),
{
    if replies.len() > 0 {
        lemma_attempts(start, replies.drop_last());
        reached(start, replies.drop_last()).one_reply(replies.last());
    }
}

/// The error of a change that the host refused is the one reported. Where a descriptor is
/// closed first and that fails, it is the error of the `close`.
pub proof fn law_refused_change_is_reported<O: Operation>(start: O, replies: Seq<Reply>)
    requires
        possible(start, replies),
        replies.len() > 0,
        alters(last_call(start, replies)),
        !succeeded(replies.last()),
    ensures
        ({
            let errno = replies.last()->Sys_errno;
            let over = reached(start, replies);
            &&& replies.last() is Sys
            &&& {
                ||| over.due() matches Step::Finished { result, .. } && result == Err::<
                    (),
                    Errno,
                >(Errno::Host(errno))
                ||| over.due() matches Step::Call(Call::Close { .. }) && forall|
                    closed: Result<(), i32>,
                |
                    (#[trigger] reached(start, replies.push(Reply::Closed(closed)))).due()
                        == refusal::<Seq<u8>>(errno_after(errno, closed))
            }
        }),
{
    let before = reached(start, replies.drop_last());
    before.one_reply(replies.last());
    let over = reached(start, replies);
    assert forall|closed: Result<(), i32>|
        (#[trigger] reached(start, replies.push(Reply::Closed(closed)))) == over.after(
            Reply::Closed(closed),
        ) by {
        assert(replies.push(Reply::Closed(closed)).drop_last() =~= replies);
    }
}

/// No entry is ever opened through a symbolic link, nor left to a program that is executed.
pub proof fn law_opens_do_not_follow<O: Operation>(start: O, replies: Seq<Reply>)
    requires
        reached(start, replies).due() is Call,
        reached(start, replies).due()->Call_0 is OpenAt,
    ensures
        reached(start, replies).due()->Call_0->OpenAt_flags.nofollow,
        reached(start, replies).due()->Call_0->OpenAt_flags.cloexec,
{
    reached(start, replies).one_state();
}

/// An operation comes to its end after a bounded number of replies.
pub proof fn law_operation_ends<O: Operation>(start: O, replies: Seq<Reply>)
    requires
        possible(start, replies),
    ensures
        replies.len() + reached(start, replies).remaining() <= start.remaining(),
    decreases replies.len(),
{
    if replies.len() > 0 {
        law_operation_ends(start, replies.drop_last());
        reached(start, replies.drop_last()).one_reply(replies.last());
    }
}

/// Whether some reply said that the descriptor `fd` is of the file `key`.
pub open spec fn identified<O: Operation>(
    start: O,
    replies: Seq<Reply>,
    fd: i32,
    key: InodeAltKey,
) -> bool {
    exists|n: int|
        0 <= n < replies.len() && #[trigger] replies[n] == Reply::Identity(Ok(key)) && reached(
            start,
            replies.take(n),
        ).due() == Step::Call(Call::<Seq<u8>>::Identify { fd })
}

/// What was identified once stays so.
pub proof fn lemma_identified_before<O: Operation>(
    start: O,
    replies: Seq<Reply>,
    fd: i32,
    key: InodeAltKey,
)
    requires
        replies.len() > 0,
        identified(start, replies.drop_last(), fd, key),
    ensures
        identified(start, replies, fd, key),
{
    let sofar = replies.drop_last();
    let n = choose|n: int|
        0 <= n < sofar.len() && #[trigger] sofar[n] == Reply::Identity(Ok(key)) && reached(
            start,
            sofar.take(n),
        ).due() == Step::Call(Call::<Seq<u8>>::Identify { fd });
    assert(sofar.take(n) =~= replies.take(n));
    assert(replies[n] == sofar[n]);
}

/// The last reply identified a descriptor.
pub proof fn lemma_identified_now<O: Operation>(
    start: O,
    replies: Seq<Reply>,
    fd: i32,
    key: InodeAltKey,
)
    requires
        replies.len() > 0,
        replies.last() == Reply::Identity(Ok(key)),
        reached(start, replies.drop_last()).due() == Step::Call(Call::<Seq<u8>>::Identify { fd }),
    ensures
        identified(start, replies, fd, key),
{
    let n = replies.len() - 1;
    assert(replies.take(n) =~= replies.drop_last());
    assert(replies[n] == Reply::Identity(Ok(key)));
}

/// What the operation was waiting for when reply `n` came.
pub open spec fn due_at<O: Operation>(start: O, replies: Seq<Reply>, n: int) -> Step<Seq<u8>> {
    reached(start, replies.take(n)).due()
}

/// Whether `step` is the call that opens the entry `name` in the directory `dir`.
pub open spec fn opens_entry(step: Step<Seq<u8>>, dir: i32, name: Seq<u8>) -> bool {
    step matches Step::Call(Call::OpenAt { dir: at, name: asked, .. }) && at == dir && asked == name
}

/// Whether the descriptor `fd` came from opening the entry `name` in `dir`, and has not been
/// closed since.
pub open spec fn entry_opened<O: Operation>(
    start: O,
    replies: Seq<Reply>,
    dir: i32,
    name: Seq<u8>,
    fd: i32,
) -> bool {
    fd >= 0 && exists|n: int|
        0 <= n < replies.len() && opens_entry(#[trigger] due_at(start, replies, n), dir, name)
            && replies[n] is Sys && replies[n]->Sys_ret == fd && open_since(start, replies, n, fd)
}

/// Whether no call after reply `n` closed `fd`.
pub open spec fn open_since<O: Operation>(
    start: O,
    replies: Seq<Reply>,
    n: int,
    fd: i32,
) -> bool {
    forall|k: int|
        n < k < replies.len() ==> #[trigger] due_at(start, replies, k) != Step::Call(
            Call::<Seq<u8>>::Close { fd },
        )
}

/// Whether the host said that the entry `name` in `dir` is of the file `key`: when asked for
/// the entry, or for a descriptor that came from opening it.
pub open spec fn entry_identified<O: Operation>(
    start: O,
    replies: Seq<Reply>,
    dir: i32,
    name: Seq<u8>,
    key: InodeAltKey,
) -> bool {
    exists|n: int|
        0 <= n < replies.len() && replies[n] == Reply::Identity(Ok(key)) && identifies_entry(
            start,
            replies.take(n),
            #[trigger] due_at(start, replies, n),
            dir,
            name,
        )
}

/// Whether `step`, due after `replies`, asks which file the entry `name` in `dir` is of.
pub open spec fn identifies_entry<O: Operation>(
    start: O,
    replies: Seq<Reply>,
    step: Step<Seq<u8>>,
    dir: i32,
    name: Seq<u8>,
) -> bool {
    match step {
        Step::Call(Call::IdentifyAt { dir: at, name: asked }) => at == dir && asked == name,
        Step::Call(Call::Identify { fd }) => entry_opened(start, replies, dir, name, fd),
        _ => false,
    }
}

/// Whether the host said that there is no entry `name` in `dir`.
pub open spec fn entry_missing<O: Operation>(
    start: O,
    replies: Seq<Reply>,
    dir: i32,
    name: Seq<u8>,
) -> bool {
    exists|n: int|
        0 <= n < replies.len() && says_missing(
            #[trigger] due_at(start, replies, n),
            replies[n],
            dir,
            name,
        )
}

/// Whether `reply` to `step` says that there is no entry `name` in `dir`.
pub open spec fn says_missing(
    step: Step<Seq<u8>>,
    reply: Reply,
    dir: i32,
    name: Seq<u8>,
) -> bool {
    match (step, reply) {
        (
            Step::Call(Call::IdentifyAt { dir: at, name: asked }),
            Reply::Identity(Err(errno)),
        ) => at == dir && asked == name && errno == ENOENT,
        (
            Step::Call(Call::OpenAt { dir: at, name: asked, .. }),
            Reply::Sys { ret, errno },
        ) => at == dir && asked == name && ret < 0 && errno == ENOENT,
        _ => false,
    }
}

/// Later replies change nothing of what was due before.
pub proof fn lemma_due_before<O: Operation>(start: O, replies: Seq<Reply>, n: int)
    requires
        replies.len() > 0,
        0 <= n < replies.len(),
    ensures
        due_at(start, replies.drop_last(), n) == due_at(start, replies, n),
        n == replies.len() - 1 ==> due_at(start, replies, n) == reached(
            start,
            replies.drop_last(),
        ).due(),
        n < replies.len() - 1 ==> replies.drop_last().take(n) == replies.take(n),
{
    assert(replies.drop_last().take(n) =~= replies.take(n));
    if n == replies.len() - 1 {
        assert(replies.take(n) =~= replies.drop_last());
    }
}

/// The last reply gave a descriptor of the entry.
pub proof fn lemma_opened_now<O: Operation>(
    start: O,
    replies: Seq<Reply>,
    dir: i32,
    name: Seq<u8>,
    fd: i32,
)
    requires
        replies.len() > 0,
        fd >= 0,
        opens_entry(reached(start, replies.drop_last()).due(), dir, name),
        replies.last() is Sys,
        replies.last()->Sys_ret == fd,
    ensures
        entry_opened(start, replies, dir, name, fd),
{
    let n = replies.len() - 1;
    lemma_due_before(start, replies, n);
    assert(opens_entry(due_at(start, replies, n), dir, name));
    assert(open_since(start, replies, n, fd));
}

/// A descriptor that the last call did not close is still open.
pub proof fn lemma_opened_still<O: Operation>(
    start: O,
    replies: Seq<Reply>,
    dir: i32,
    name: Seq<u8>,
    fd: i32,
)
    requires
        replies.len() > 0,
        entry_opened(start, replies.drop_last(), dir, name, fd),
        reached(start, replies.drop_last()).due() != Step::Call(Call::<Seq<u8>>::Close { fd }),
    ensures
        entry_opened(start, replies, dir, name, fd),
{
    let sofar = replies.drop_last();
    let n = choose|n: int|
        0 <= n < sofar.len() && opens_entry(#[trigger] due_at(start, sofar, n), dir, name)
            && sofar[n] is Sys && sofar[n]->Sys_ret == fd && open_since(start, sofar, n, fd);
    lemma_due_before(start, replies, n);
    assert(replies[n] == sofar[n]);
    assert(opens_entry(due_at(start, replies, n), dir, name));
    assert forall|k: int| n < k < replies.len() implies #[trigger] due_at(start, replies, k)
        != Step::Call(Call::<Seq<u8>>::Close { fd }) by {
        lemma_due_before(start, replies, k);
        if k < sofar.len() {
            assert(due_at(start, sofar, k) != Step::Call(Call::<Seq<u8>>::Close { fd }));
        }
    }
    assert(open_since(start, replies, n, fd));
}

/// An entry that was identified once stays so.
pub proof fn lemma_entry_identified_before<O: Operation>(
    start: O,
    replies: Seq<Reply>,
    dir: i32,
    name: Seq<u8>,
    key: InodeAltKey,
)
    requires
        replies.len() > 0,
        entry_identified(start, replies.drop_last(), dir, name, key),
    ensures
        entry_identified(start, replies, dir, name, key),
{
    let sofar = replies.drop_last();
    let n = choose|n: int|
        0 <= n < sofar.len() && sofar[n] == Reply::Identity(Ok(key)) && identifies_entry(
            start,
            sofar.take(n),
            #[trigger] due_at(start, sofar, n),
            dir,
            name,
        );
    lemma_due_before(start, replies, n);
    assert(replies[n] == sofar[n]);
    assert(identifies_entry(start, replies.take(n), due_at(start, replies, n), dir, name));
}

/// The last reply identified the entry.
pub proof fn lemma_entry_identified_now<O: Operation>(
    start: O,
    replies: Seq<Reply>,
    dir: i32,
    name: Seq<u8>,
    key: InodeAltKey,
)
    requires
        replies.len() > 0,
        replies.last() == Reply::Identity(Ok(key)),
        identifies_entry(
            start,
            replies.drop_last(),
            reached(start, replies.drop_last()).due(),
            dir,
            name,
        ),
    ensures
        entry_identified(start, replies, dir, name, key),
{
    let n = replies.len() - 1;
    lemma_due_before(start, replies, n);
    assert(replies.take(n) =~= replies.drop_last());
    assert(replies[n] == Reply::Identity(Ok(key)));
    assert(identifies_entry(start, replies.take(n), due_at(start, replies, n), dir, name));
}

/// An entry that was missing once stays so.
pub proof fn lemma_entry_missing_before<O: Operation>(
    start: O,
    replies: Seq<Reply>,
    dir: i32,
    name: Seq<u8>,
)
    requires
        replies.len() > 0,
        entry_missing(start, replies.drop_last(), dir, name),
    ensures
        entry_missing(start, replies, dir, name),
{
    let sofar = replies.drop_last();
    let n = choose|n: int|
        0 <= n < sofar.len() && says_missing(
            #[trigger] due_at(start, sofar, n),
            sofar[n],
            dir,
            name,
        );
    lemma_due_before(start, replies, n);
    assert(says_missing(due_at(start, replies, n), replies[n], dir, name));
}

/// The last reply said that the entry is missing.
pub proof fn lemma_entry_missing_now<O: Operation>(
    start: O,
    replies: Seq<Reply>,
    dir: i32,
    name: Seq<u8>,
)
    requires
        replies.len() > 0,
        says_missing(
            reached(start, replies.drop_last()).due(),
            replies.last(),
            dir,
            name,
        ),
    ensures
        entry_missing(start, replies, dir, name),
{
    let n = replies.len() - 1;
    lemma_due_before(start, replies, n);
    assert(says_missing(due_at(start, replies, n), replies[n], dir, name));
}

} // verus!
