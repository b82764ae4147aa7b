//! Progress of sending a list of packets over one connected socket.
use vstd::prelude::*;

verus! {

/// The most messages that one `sendmmsg(2)` call takes.
pub const UIO_MAXIOV: usize = 1024;

/// What one call answered.
pub enum Reply<E> {
    /// The first so many packets of the window were sent.
    Sent(usize),
    /// The first packet of the window could not be sent.
    Failed(E),
}

/// Which packets of a list are still to be sent.
///
/// The list is cut into chunks. Each call is handed the window of packets that are left of the
/// current chunk; a call may send only some of them. With the first packet that cannot be sent the
/// list is done with: that packet and those after it are dropped.
pub struct SendCursor<E> {
    total: usize,
    chunk: usize,
    sent: usize,
    err: Option<E>,
}

/// What a cursor stands for.
pub struct CursorState<E> {
    /// Number of packets in the list.
    pub total: nat,
    /// Number of packets in a chunk.
    pub chunk: nat,
    /// Number of packets that are sent: so many from the start of the list on.
    pub sent: nat,
    /// The error of the packet that could not be sent, if there is one.
    pub err: Option<E>,
}

/// What sending a list came to.
#[derive(Debug)]
pub struct SendReport<E> {
    /// Number of packets that were sent.
    pub sent: usize,
    /// The error of the packet that could not be sent, if there is one.
    pub err: Option<E>,
}

/// The smaller of two numbers.
pub open spec fn smaller(a: int, b: int) -> int {
    if a < b {
        a
    } else {
        b
    }
}

impl<E> CursorState<E> {
    /// At the start of a list.
    pub open spec fn at_start(total: nat, chunk: nat) -> Self {
        CursorState { total, chunk, sent: 0, err: None }
    }

    /// No more packets are sent than there are, and where one could not be sent it is one of them.
    pub open spec fn well_formed(self) -> bool {
        &&& self.chunk > 0
        &&& self.sent <= self.total
        &&& self.err is Some ==> self.sent < self.total
    }

    /// Whether nothing is left to send.
    pub open spec fn done(self) -> bool {
        self.err is Some || self.sent == self.total
    }

    /// Where the current window ends: with its chunk, or with the list.
    pub open spec fn window_end(self) -> int {
        smaller(self.total as int, self.sent - self.sent % self.chunk + self.chunk)
    }

    /// Whether a call that is handed the current window can give this answer.
    pub open spec fn accepts(self, reply: Reply<E>) -> bool {
        &&& !self.done()
        &&& reply matches Reply::Sent(n) ==> self.sent + n <= self.window_end()
    }

    /// After an answer.
    pub open spec fn after(self, reply: Reply<E>) -> Self {
        match reply {
            Reply::Sent(n) => CursorState { sent: self.sent + n as nat, ..self },
            Reply::Failed(e) => CursorState { err: Some(e), ..self },
        }
    }

    /// After these answers.
    pub open spec fn replayed(total: nat, chunk: nat, replies: Seq<Reply<E>>) -> Self
        decreases replies.len(),
    {
        if replies.len() == 0 {
            CursorState::at_start(total, chunk)
        } else {
            CursorState::replayed(total, chunk, replies.drop_last()).after(replies.last())
        }
    }

    /// Whether these answers can come, one after the other.
    pub open spec fn all_accepted(total: nat, chunk: nat, replies: Seq<Reply<E>>) -> bool
        decreases replies.len(),
    {
        replies.len() > 0 ==> {
            &&& CursorState::all_accepted(total, chunk, replies.drop_last())
            &&& CursorState::replayed(total, chunk, replies.drop_last()).accepts(replies.last())
        }
    }
}

impl<E> View for SendCursor<E> {
    type V = CursorState<E>;

    closed spec fn view(&self) -> CursorState<E> {
        CursorState {
            total: self.total as nat,
            chunk: self.chunk as nat,
            sent: self.sent as nat,
            err: self.err,
        }
    }
}

impl<E> SendCursor<E> {
    #[verifier::type_invariant]
    spec fn inv(self) -> bool {
        self@.well_formed()
    }

    /// Starts on a list of `total` packets.
    pub fn new(total: usize, chunk: usize) -> (cursor: Self)
        requires
            chunk > 0,
        ensures
            cursor@ == CursorState::<E>::at_start(total as nat, chunk as nat),
            cursor@.total == total,
            cursor@.chunk == chunk,
            cursor@.sent == 0,
            cursor@.err is None,
    {
        SendCursor { total, chunk, sent: 0, err: None }
    }

    /// The packets that the next call is to be handed, from one index up to another; `None` once
    /// nothing is left to send.
    pub fn next_window(&self) -> (window: Option<(usize, usize)>)
        ensures
            window is None <==> self@.done(),
            window is None <==> self@.err is Some || self@.sent == self@.total,
            window matches Some((start, end)) ==> {
                &&& start == self@.sent
                &&& end == self@.window_end()
                &&& start < end <= self@.total
                &&& end - start <= self@.chunk
                &&& end == self@.total || end as int % self@.chunk as int == 0
            },
    {
        proof {
            use_type_invariant(self);
        }
        if self.err.is_some() || self.sent == self.total {
            return None;
        }
        proof {
            vstd::arithmetic::div_mod::lemma_mod_bound(self.sent as int, self.chunk as int);
            vstd::arithmetic::div_mod::lemma_mod_decreases(self.sent as nat, self.chunk as nat);
        }
        let chunk_start: usize = self.sent - self.sent % self.chunk;
        let end: usize = if self.total - chunk_start <= self.chunk {
            self.total
        } else {
            chunk_start + self.chunk
        };
        proof {
            let chunks = self.sent as int / self.chunk as int;
            vstd::arithmetic::div_mod::lemma_fundamental_div_mod(
                self.sent as int,
                self.chunk as int,
            );
            assert((chunks + 1) * self.chunk == self.chunk * chunks + self.chunk)
                by (nonlinear_arith);
            vstd::arithmetic::div_mod::lemma_mod_multiples_basic(chunks + 1, self.chunk as int);
        }
        Some((self.sent, end))
    }

    /// Takes the answer of a call.
    pub fn on_reply(&mut self, reply: Reply<E>)
        requires
            old(self)@.accepts(reply),
        ensures
            final(self)@ == old(self)@.after(reply),
            final(self)@.total == old(self)@.total,
            final(self)@.chunk == old(self)@.chunk,
            reply matches Reply::Sent(n) ==> final(self)@.sent == old(self)@.sent + n && final(self)@.err == old(self)@.err,
            reply matches Reply::Failed(e) ==> final(self)@.sent == old(self)@.sent && final(self)@.err == Some(e),
    {
        proof {
            use_type_invariant(&*self);
        }
        match reply {
            Reply::Sent(n) => {
                self.sent = self.sent + n;
            },
            Reply::Failed(e) => {
                self.err = Some(e);
            },
        }
    }

    /// What sending the list came to.
    pub fn finish(self) -> (report: SendReport<E>)
        requires
            self@.done(),
        ensures
            report.sent == self@.sent,
            report.err == self@.err,
            report.of(self@.total),
            report.err is None ==> report.sent == self@.total,
            report.err is Some ==> report.sent < self@.total,
    {
        proof {
            use_type_invariant(&self);
        }
        SendReport { sent: self.sent, err: self.err }
    }
}

impl<E> SendReport<E> {
    /// Whether a list of `total` packets can come to this: all are sent, or a packet could not be
    /// sent and only those before it are.
    pub open spec fn of(self, total: nat) -> bool {
        &&& self.err is None ==> self.sent == total
        &&& self.err is Some ==> self.sent < total
    }

    /// The number of packets that were sent, or the error.
    pub fn into_result(self) -> (result: Result<usize, E>)
        ensures
            result == (match self.err {
                Some(e) => Err::<usize, E>(e),
                None => Ok::<usize, E>(self.sent),
            }),
    {
        match self.err {
            Some(e) => Err(e),
            None => Ok(self.sent),
        }
    }
}

/// The number of packets that these answers say were sent.
pub open spec fn count_sent<E>(replies: Seq<Reply<E>>) -> nat
    decreases replies.len(),
{
    if replies.len() == 0 {
        0
    } else {
        count_sent(replies.drop_last()) + match replies.last() {
            Reply::Sent(n) => n as nat,
            Reply::Failed(_) => 0,
        }
    }
}

/// Whatever a socket answers, the packets up to the cursor are those that it says were sent, and
/// only the last answer can be an error: nothing is handed to the socket after it.
pub proof fn replies_account_for_packets<E>(total: nat, chunk: nat, replies: Seq<Reply<E>>)
    requires
        chunk > 0,
        CursorState::all_accepted(total, chunk, replies),
    ensures
        ({
            let state = CursorState::replayed(total, chunk, replies);
            &&& state.well_formed()
            &&& state.total == total
            &&& state.chunk == chunk
            &&& state.sent == count_sent(replies)
            &&& state.err == (if replies.len() > 0 {
                match replies.last() {
                    Reply::Failed(e) => Some(e),
                    Reply::Sent(_) => None,
                }
            } else {
                None
            })
        }),
        forall|i: int| 0 <= i < replies.len() - 1 ==> (#[trigger] replies[i]) is Sent,
    decreases replies.len(),
{
    if replies.len() > 0 {
        let rest = replies.drop_last();
        replies_account_for_packets(total, chunk, rest);
        assert forall|i: int| 0 <= i < replies.len() - 1 implies (#[trigger] replies[i]) is Sent by {
            assert(rest[i] == replies[i]);
            if i == rest.len() - 1 {
                assert(rest.last() == rest[i]);
            }
        }
    }
}

/// Once a list is done with, all of its packets are sent if no answer was an error; otherwise the
/// packets before the one that could not be sent are, and no others.
pub proof fn result_is_all_or_first_error<E>(total: nat, chunk: nat, replies: Seq<Reply<E>>)
    requires
        chunk > 0,
        CursorState::all_accepted(total, chunk, replies),
        CursorState::replayed(total, chunk, replies).done(),
    ensures
        ({
            let state = CursorState::replayed(total, chunk, replies);
            &&& state.err is None ==> state.sent == total && forall|i: int|
                0 <= i < replies.len() ==> (#[trigger] replies[i]) is Sent
            &&& state.err matches Some(e) ==> replies.last() == Reply::<E>::Failed(e) && state.sent
                == count_sent(replies.drop_last()) && state.sent < total
        }),
{
    replies_account_for_packets(total, chunk, replies);
    if replies.len() > 0 {
        let last = replies.len() - 1;
        assert(replies[last] == replies.last());
    }
}

/// A list of packets is done with exactly if all of them are sent or one could not be: as long as
/// neither is so there is a window, which starts with the first packet that is not sent and holds
/// all that is left of its chunk.
pub proof fn windows_hold_what_is_left<E>(state: CursorState<E>)
    requires
        state.well_formed(),
    ensures
        state.done() <==> state.err is Some || state.sent == state.total,
        !state.done() ==> {
            &&& state.sent < state.window_end() <= state.total
            &&& state.window_end() == state.total || state.window_end() % state.chunk as int == 0
            &&& forall|k: int|
                state.sent < k < state.window_end() ==> #[trigger] (k % state.chunk as int) != 0
        },
{
    if !state.done() {
        let chunk = state.chunk as int;
        let sent = state.sent as int;
        let chunks = sent / chunk;
        vstd::arithmetic::div_mod::lemma_fundamental_div_mod(sent, chunk);
        vstd::arithmetic::div_mod::lemma_mod_bound(sent, chunk);
        assert((chunks + 1) * chunk == chunk * chunks + chunk) by (nonlinear_arith);
        vstd::arithmetic::div_mod::lemma_mod_multiples_basic(chunks + 1, chunk);
        assert forall|k: int| state.sent < k < state.window_end() implies #[trigger] (k % chunk)
            != 0 by {
            let start = chunk * chunks;
            assert(chunk * chunks == chunks * chunk) by (nonlinear_arith);
            vstd::arithmetic::div_mod::lemma_fundamental_div_mod_converse(
                k,
                chunk,
                chunks,
                k - start,
            );
        }
    }
}

/// Whether a socket takes packets in one go or in two makes no difference.
pub proof fn short_sends_add_up<E>(state: CursorState<E>, first: usize, second: usize, both: usize)
    requires
        first + second == both,
        state.accepts(Reply::Sent(both)),
        first < both,
    ensures
        state.accepts(Reply::Sent(first)),
        state.after(Reply::Sent(first)).after(Reply::Sent(second)) == state.after(
            Reply::Sent(both),
        ),
        state.after(Reply::Sent(both)).sent == state.sent + first + second,
{
}

} // verus!
