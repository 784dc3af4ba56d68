//! Feeding a byte source through a printer, chunk by chunk.
//!
//! A source arrives in chunks of any size. What a chunk leaves unfinished,
//! the first bytes of a scalar or of a line, is held until the next chunk
//! arrives or the source ends.

use vstd::prelude::*;
use crate::decode::{decode, lemma_pending_is_tail, pending, Unit};
use crate::plan::{lemma_first_newline, unfinished, GlyphPos, Op, Rgb};
use crate::printer::{Printer, Sink};

verus! {

/// What is held of a source between two chunks.
pub struct Source {
    /// The first bytes of a scalar that the last chunk did not finish.
    pub carry: Vec<u8>,
    /// The bytes of a line that no newline has ended yet. Only a run that
    /// animates its lines holds them.
    pub line: Vec<u8>,
}

impl Source {
    /// A source of which nothing has arrived.
    pub fn new() -> (source: Source)
        ensures
            source.carry@ == Seq::<u8>::empty(),
            source.line@ == Seq::<u8>::empty(),
    {
        Source { carry: Vec::new(), line: Vec::new() }
    }
}

/// Colours the chunk `chunk` of a stream as it arrives. The bytes that the
/// chunk before it left are decoded in front of it, and the bytes at its end
/// that begin a scalar without finishing it are left for the next chunk.
pub fn process_stream_streaming<P: Fn(GlyphPos) -> Rgb>(
    printer: &mut Printer<P>,
    source: &mut Source,
    chunk: &[u8],
    sink: &mut Sink,
)
    requires
        old(printer).wf(),
    ensures
        final(printer).renders(
            old(printer),
            *old(sink),
            *final(sink),
            old(printer).pen().run(decode(old(source).carry@ + chunk@), true),
        ),
        final(source).carry@ == pending(old(source).carry@ + chunk@),
        final(source).line@ == old(source).line@,
{
    if source.carry.len() == 0 {
        assert(source.carry@ + chunk@ =~= chunk@);
        let consumed = printer.consume_segment(chunk, sink);
        source.carry.extend_from_slice(&chunk[consumed..chunk.len()]);
        proof {
            lemma_pending_is_tail(chunk@);
            assert(source.carry@ =~= chunk@.skip(consumed as int));
        }
    } else {
        source.carry.extend_from_slice(chunk);
        let ghost joined = source.carry@;
        assert(joined == old(source).carry@ + chunk@);
        let consumed = printer.consume_segment(source.carry.as_slice(), sink);
        proof {
            lemma_pending_is_tail(joined);
        }
        let tail = source.carry.split_off(consumed);
        assert(tail@ =~= joined.skip(consumed as int));
        source.carry = tail;
    }
}

/// Ends a stream. Bytes that still wait for the rest of their scalar get one
/// marker in their place, and all that is pending goes to the sink.
pub fn finish_stream_streaming<P: Fn(GlyphPos) -> Rgb>(
    printer: &mut Printer<P>,
    source: &mut Source,
    sink: &mut Sink,
)
    requires
        old(printer).wf(),
    ensures
        final(printer).renders(
            old(printer),
            *old(sink),
            *final(sink),
            old(printer).pen().stream_end(old(source).carry@),
        ),
        final(printer).pending() == Seq::<u8>::empty(),
        final(source).carry@ == Seq::<u8>::empty(),
        final(source).line@ == old(source).line@,
{
    let ghost first = if source.carry@.len() > 0 {
        printer.pen().put(Unit::Marker, true)
    } else {
        (printer.pen(), Seq::<Op>::empty())
    };
    proof {
        printer.lemma_renders_nothing(*sink);
    }
    if source.carry.len() > 0 {
        printer.write_replacement(sink);
        source.carry.clear();
    }
    let ghost mid = *printer;
    let ghost sink_mid = *sink;
    printer.flush_pending(sink);
    proof {
        printer.lemma_renders_chain(
            &mid,
            old(printer),
            *old(sink),
            sink_mid,
            *sink,
            first,
            (mid.pen(), seq![Op::Flush]),
        );
        assert(Seq::<Op>::empty() + seq![Op::Flush] =~= seq![Op::Flush]);
    }
}

/// Prints the line that `line_buf` holds and empties it. An empty line
/// without a newline is no line, and nothing is printed.
pub fn flush_line<P: Fn(GlyphPos) -> Rgb>(
    line_buf: &mut Vec<u8>,
    had_newline: bool,
    printer: &mut Printer<P>,
    sink: &mut Sink,
)
    requires
        old(printer).wf(),
    ensures
        final(printer).renders(
            old(printer),
            *old(sink),
            *final(sink),
            if old(line_buf)@.len() == 0 && !had_newline {
                (old(printer).pen(), Seq::<Op>::empty())
            } else {
                old(printer).pen().line(
                    old(line_buf)@,
                    had_newline,
                    old(printer).setup().animate,
                    old(printer).setup().frames as nat,
                    old(printer).setup().use_color,
                )
            },
        ),
        final(line_buf)@ == Seq::<u8>::empty(),
{
    if line_buf.len() == 0 && !had_newline {
        proof {
            printer.lemma_renders_nothing(*sink);
            assert(line_buf@ =~= Seq::<u8>::empty());
        }
        return ;
    }
    printer.print_line(line_buf.as_slice(), had_newline, sink);
    line_buf.clear();
}

/// Takes in the chunk `chunk` of a stream whose lines are animated. Each
/// newline of the chunk ends a line, which is printed with all that was held
/// of it; what stands behind the last newline is held for the next chunk.
pub fn process_stream_buffered<P: Fn(GlyphPos) -> Rgb>(
    printer: &mut Printer<P>,
    source: &mut Source,
    chunk: &[u8],
    sink: &mut Sink,
)
    requires
        old(printer).wf(),
    ensures
        final(printer).renders(
            old(printer),
            *old(sink),
            *final(sink),
            old(printer).pen().fed(
                old(source).line@,
                chunk@,
                old(printer).setup().animate,
                old(printer).setup().frames as nat,
                old(printer).setup().use_color,
            ),
        ),
        final(source).line@ == unfinished(old(source).line@, chunk@),
        final(source).carry@ == old(source).carry@,
{
    let ghost animate = printer.setup().animate;
    let ghost n = printer.setup().frames as nat;
    let ghost use_color = printer.setup().use_color;
    let ghost whole = old(printer).pen().fed(old(source).line@, chunk@, animate, n, use_color);
    let ghost mut done: Seq<Op> = Seq::empty();
    proof {
        printer.lemma_renders_nothing(*sink);
        assert(chunk@.skip(0) =~= chunk@);
        assert(done + whole.1 =~= whole.1);
        assert(source.line@ + chunk@.subrange(0, 0) =~= source.line@);
    }
    let mut start: usize = 0;
    let mut idx: usize = 0;
    let ghost mut held: Seq<u8> = source.line@;
    while idx < chunk.len()
        invariant
            start <= idx <= chunk.len(),
            animate == old(printer).setup().animate,
            n == old(printer).setup().frames as nat,
            use_color == old(printer).setup().use_color,
            source.carry@ == old(source).carry@,
            source.line@ == held,
            forall|j: int| start <= j < idx ==> chunk@[j] != 0x0A,
            printer.renders(old(printer), *old(sink), *sink, (printer.pen(), done)),
            whole.0 == printer.pen().fed(held, chunk@.skip(start as int), animate, n, use_color).0,
            whole.1 == done + printer.pen().fed(
                held,
                chunk@.skip(start as int),
                animate,
                n,
                use_color,
            ).1,
            unfinished(old(source).line@, chunk@) == unfinished(held, chunk@.skip(start as int)),
        decreases chunk.len() - idx,
    {
        if chunk[idx] == 0x0A {
            let ghost rest = chunk@.skip(start as int);
            let ghost mid = *printer;
            let ghost sink_mid = *sink;
            proof {
                assert forall|j: int| 0 <= j < idx - start implies rest[j] != 0x0A by {
                    assert(rest[j] == chunk@[start + j]);
                }
                lemma_first_newline(rest, idx - start);
                assert(rest.take(idx - start) =~= chunk@.subrange(start as int, idx as int));
                assert(rest.skip(idx - start + 1) =~= chunk@.skip(idx + 1));
            }
            source.line.extend_from_slice(&chunk[start..idx]);
            assert(source.line@ == held + rest.take(idx - start));
            flush_line(&mut source.line, true, printer, sink);
            proof {
                let line = mid.pen().line(
                    held + rest.take(idx - start),
                    true,
                    animate,
                    n,
                    use_color,
                );
                printer.lemma_renders_chain(
                    &mid,
                    old(printer),
                    *old(sink),
                    sink_mid,
                    *sink,
                    (mid.pen(), done),
                    line,
                );
                let after = printer.pen().fed(
                    Seq::empty(),
                    chunk@.skip(idx + 1),
                    animate,
                    n,
                    use_color,
                );
                assert((done + line.1) + after.1 =~= done + (line.1 + after.1));
                done = done + line.1;
                held = Seq::empty();
            }
            start = idx + 1;
        }
        idx += 1;
    }
    proof {
        let rest = chunk@.skip(start as int);
        assert forall|j: int| 0 <= j < rest.len() implies rest[j] != 0x0A by {
            assert(rest[j] == chunk@[start + j]);
        }
        lemma_first_newline(rest, rest.len() as int);
        assert(done + Seq::<Op>::empty() =~= done);
        assert(rest =~= chunk@.subrange(start as int, chunk.len() as int));
    }
    if start < chunk.len() {
        source.line.extend_from_slice(&chunk[start..chunk.len()]);
    } else {
        assert(held + chunk@.skip(start as int) =~= held);
    }
}

/// Ends a stream whose lines are animated: the line that no newline has
/// ended is printed without one, and all that is pending goes to the sink.
pub fn finish_stream_buffered<P: Fn(GlyphPos) -> Rgb>(
    printer: &mut Printer<P>,
    source: &mut Source,
    sink: &mut Sink,
)
    requires
        old(printer).wf(),
    ensures
        final(printer).renders(
            old(printer),
            *old(sink),
            *final(sink),
            old(printer).pen().lines_end(
                old(source).line@,
                old(printer).setup().animate,
                old(printer).setup().frames as nat,
                old(printer).setup().use_color,
            ),
        ),
        final(printer).pending() == Seq::<u8>::empty(),
        final(source).line@ == Seq::<u8>::empty(),
        final(source).carry@ == old(source).carry@,
{
    let ghost first = if source.line@.len() == 0 {
        (printer.pen(), Seq::<Op>::empty())
    } else {
        printer.pen().line(
            source.line@,
            false,
            printer.setup().animate,
            printer.setup().frames as nat,
            printer.setup().use_color,
        )
    };
    proof {
        printer.lemma_renders_nothing(*sink);
    }
    if source.line.len() > 0 {
        flush_line(&mut source.line, false, printer, sink);
    } else {
        assert(source.line@ =~= Seq::<u8>::empty());
    }
    let ghost mid = *printer;
    let ghost sink_mid = *sink;
    printer.flush_pending(sink);
    proof {
        printer.lemma_renders_chain(
            &mid,
            old(printer),
            *old(sink),
            sink_mid,
            *sink,
            first,
            (mid.pen(), seq![Op::Flush]),
        );
        assert(Seq::<Op>::empty() + seq![Op::Flush] =~= seq![Op::Flush]);
    }
}

/// Takes in the chunk `chunk` of a source. A run without colour copies it
/// to the sink as it is. A run in colour animates its lines where it is
/// asked to, and colours the stream as it arrives otherwise.
pub fn process_stream<P: Fn(GlyphPos) -> Rgb>(
    printer: &mut Printer<P>,
    source: &mut Source,
    chunk: &[u8],
    sink: &mut Sink,
)
    requires
        old(printer).wf(),
    ensures
        final(printer).wf(),
        final(printer).same_run(old(printer)),
        !old(printer).setup().use_color ==> {
            &&& *final(printer) == *old(printer)
            &&& *final(source) == *old(source)
            &&& final(sink).bytes@ == old(sink).bytes@ + chunk@
            &&& final(sink).frames@ == old(sink).frames@
        },
        old(printer).setup().use_color && old(printer).setup().animate ==> {
            &&& final(printer).renders(
                old(printer),
                *old(sink),
                *final(sink),
                old(printer).pen().fed(
                    old(source).line@,
                    chunk@,
                    true,
                    old(printer).setup().frames as nat,
                    true,
                ),
            )
            &&& final(source).line@ == unfinished(old(source).line@, chunk@)
            &&& final(source).carry@ == old(source).carry@
        },
        old(printer).setup().use_color && !old(printer).setup().animate ==> {
            &&& final(printer).renders(
                old(printer),
                *old(sink),
                *final(sink),
                old(printer).pen().run(decode(old(source).carry@ + chunk@), true),
            )
            &&& final(source).carry@ == pending(old(source).carry@ + chunk@)
            &&& final(source).line@ == old(source).line@
        },
{
    let setup = printer.setup();
    if !setup.use_color {
        sink.bytes.extend_from_slice(chunk);
    } else if setup.animate {
        process_stream_buffered(printer, source, chunk, sink);
    } else {
        process_stream_streaming(printer, source, chunk, sink);
    }
}

/// Ends a source: what was held of it is put out, and all that is pending
/// goes to the sink. A run without colour has held nothing.
pub fn finish_stream<P: Fn(GlyphPos) -> Rgb>(
    printer: &mut Printer<P>,
    source: &mut Source,
    sink: &mut Sink,
)
    requires
        old(printer).wf(),
    ensures
        final(printer).wf(),
        final(printer).same_run(old(printer)),
        !old(printer).setup().use_color ==> {
            &&& *final(printer) == *old(printer)
            &&& *final(source) == *old(source)
            &&& *final(sink) == *old(sink)
        },
        old(printer).setup().use_color && old(printer).setup().animate ==> {
            &&& final(printer).renders(
                old(printer),
                *old(sink),
                *final(sink),
                old(printer).pen().lines_end(
                    old(source).line@,
                    true,
                    old(printer).setup().frames as nat,
                    true,
                ),
            )
            &&& final(printer).pending() == Seq::<u8>::empty()
            &&& final(source).line@ == Seq::<u8>::empty()
        },
        old(printer).setup().use_color && !old(printer).setup().animate ==> {
            &&& final(printer).renders(
                old(printer),
                *old(sink),
                *final(sink),
                old(printer).pen().stream_end(old(source).carry@),
            )
            &&& final(printer).pending() == Seq::<u8>::empty()
            &&& final(source).carry@ == Seq::<u8>::empty()
        },
{
    let setup = printer.setup();
    if !setup.use_color {
    } else if setup.animate {
        finish_stream_buffered(printer, source, sink);
    } else {
        finish_stream_streaming(printer, source, sink);
    }
}

} // verus!
