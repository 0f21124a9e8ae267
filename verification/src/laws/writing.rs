//! How far a write gets.

use vstd::prelude::*;

use crate::io::{ErrorKind, IoError, Poll};
use crate::tcp_stream_context::{TcpContexts, TcpStreamContextInner};
use crate::tcp_stream_impl;
use crate::tcp_stream_impl::{close_needs_abort, TcpStreamImpl, WriteStep};
use crate::text;

verus! {

/// A write makes all the progress that it can: what it submits is no more than the caller
/// has, than the send buffer takes and than one call carries, and it is one of the three.
pub proof fn law_a_write_is_as_long_as_it_can_be(buf_len: usize, send_buf: usize)
    ensures
        ({
            let len = tcp_stream_impl::write_len(buf_len, send_buf);
            &&& len <= buf_len
            &&& len <= send_buf
            &&& len <= 65535
            &&& len == buf_len || len == send_buf || len == 65535
            &&& len == 0 <==> buf_len == 0 || send_buf == 0
        }),
{
}

/// A write on a live connection submits as much as it can, and waits only where the caller
/// has nothing or the send buffer is full. It leaves its waker exactly where it waits. A
/// write on a failed connection is refused, and changes nothing.
pub proof fn law_a_write_makes_all_the_progress_it_can<W>(
    stream: TcpStreamImpl,
    table: &mut TcpContexts<W>,
    buf_len: usize,
    send_buf: usize,
    waker: W,
    step: WriteStep<W>,
)
    requires
        call_ensures(
            TcpStreamImpl::poll_write::<W>,
            (&stream, table, buf_len, send_buf, waker),
            step,
        ),
    ensures
        ({
            let errored = old(table).contexts@[stream.ctx].errored;
            &&& step matches WriteStep::Submit { len, waker: kept } ==> {
                &&& !errored
                &&& 0 < len <= buf_len
                &&& len <= send_buf
                &&& len == buf_len || len == send_buf || len == 65535
                &&& kept == waker
                &&& final(table).contexts@ == old(table).contexts@
            }
            &&& step is Submit <==> !errored && buf_len > 0 && send_buf > 0
            &&& step matches WriteStep::Done(Poll::Ready(outcome)) ==> {
                &&& errored
                &&& outcome matches Err(error)
                &&& error.kind == ErrorKind::BrokenPipe
                &&& final(table).contexts@ == old(table).contexts@
            }
            &&& step matches WriteStep::Done(Poll::Pending) ==> {
                &&& !errored
                &&& buf_len == 0 || send_buf == 0
                &&& final(table).contexts@ == old(table).contexts@.insert(
                    stream.ctx,
                    TcpStreamContextInner {
                        write_waker: Some(waker),
                        ..old(table).contexts@[stream.ctx]
                    },
                )
            }
            &&& final(table).parked@ == old(table).parked@
        }),
{
}

/// A write that the stack took counts in full, and changes nothing. One that met exhausted
/// memory waits: its waker is stored, and it stands in the queue of parked writers, once and
/// behind those that stood there. Any other answer is an error, and changes nothing.
pub proof fn law_a_submitted_write_counts_or_parks_or_fails<W>(
    stream: TcpStreamImpl,
    table: &mut TcpContexts<W>,
    len: u16,
    code: i8,
    waker: W,
    poll: Poll<Result<usize, IoError>>,
)
    requires
        stream.wf(*old(table)),
        call_ensures(
            TcpStreamImpl::poll_write_submitted::<W>,
            (&stream, table, len, code, waker),
            poll,
        ),
    ensures
        code == 0 ==> poll == Poll::<Result<usize, IoError>>::Ready(Ok(len as usize)),
        poll is Pending <==> code == -1,
        code != 0 && code != -1 ==> (poll matches Poll::Ready(Err(error)) && error.kind
            == ErrorKind::Interrupted && error.message@ == "netstack tcp_write error "@
            + text::signed_decimal(code as int)),
        code != -1 ==> final(table).contexts@ == old(table).contexts@ && final(table).parked@
            == old(table).parked@,
        code == -1 ==> {
            &&& final(table).contexts@ == old(table).contexts@.insert(
                stream.ctx,
                TcpStreamContextInner {
                    write_waker: Some(waker),
                    pressure_parked: true,
                    ..old(table).contexts@[stream.ctx]
                },
            )
            &&& final(table).parked@ == if old(table).parked@.contains(stream.ctx) {
                old(table).parked@
            } else {
                old(table).parked@ + seq![stream.ctx]
            }
        },
{
    assert(old(table).parked@.push(stream.ctx) =~= old(table).parked@ + seq![stream.ctx]);
}

/// Flushing and shutting down are refused exactly where the connection has failed.
pub proof fn law_only_a_failed_connection_refuses_flush_and_shutdown<W>(
    stream: TcpStreamImpl,
    table: TcpContexts<W>,
    flush: Result<(), IoError>,
    shutdown: Result<(), IoError>,
)
    requires
        call_ensures(TcpStreamImpl::poll_flush::<W>, (&stream, &table), flush),
        call_ensures(TcpStreamImpl::poll_shutdown::<W>, (&stream, &table), shutdown),
    ensures
        flush is Err <==> table.contexts@[stream.ctx].errored,
        flush matches Err(error) ==> error.kind == ErrorKind::BrokenPipe && error.message@
            == "broken pipe"@,
        shutdown is Err <==> table.contexts@[stream.ctx].errored,
        shutdown matches Err(error) ==> error.kind == ErrorKind::BrokenPipe && error.message@
            == "broken pipe"@,
{
}

/// A flush never fails once it was begun. A shutdown succeeds exactly where the stack agreed,
/// and only then the connection counts as closed.
pub proof fn law_a_shutdown_closes_where_the_stack_agreed<W>(
    stream: TcpStreamImpl,
    table: &mut TcpContexts<W>,
    code: i8,
    flushed: Poll<Result<(), IoError>>,
    shut: Poll<Result<(), IoError>>,
)
    requires
        call_ensures(TcpStreamImpl::poll_flush_sent, (&stream, code), flushed),
        call_ensures(TcpStreamImpl::poll_shutdown_sent::<W>, (&stream, table, code), shut),
    ensures
        flushed == Poll::<Result<(), IoError>>::Ready(Ok(())),
        shut == Poll::<Result<(), IoError>>::Ready(Ok(())) <==> code == 0,
        code != 0 ==> (shut matches Poll::Ready(Err(error)) && error.kind
            == ErrorKind::Interrupted && error.message@ == "netstack tcp_shutdown tx error "@
            + text::signed_decimal(code as int)),
        final(table).parked@ == old(table).parked@,
        final(table).contexts@ == if code == 0 {
            old(table).contexts@.insert(
                stream.ctx,
                TcpStreamContextInner { closed: true, ..old(table).contexts@[stream.ctx] },
            )
        } else {
            old(table).contexts@
        },
{
}

/// A connection is aborted where closing it failed, and only there.
pub proof fn law_closing_that_fails_needs_an_abort(code: i8, abort: bool)
    requires
        call_ensures(close_needs_abort, (code,), abort),
    ensures
        abort <==> code != 0,
{
}

} // verus!
