pub mod demangle;
pub mod engine;
pub mod errors;
pub mod masm;
pub mod memshadow;
pub mod parser;
pub mod render;
pub mod src_mgr;
pub mod text;
pub mod trace;

use vstd::prelude::*;

verus! {

/// Returns a string of `count` spaces, used to indent output lines by
/// their branch nesting depth.
pub fn spaces(count: usize) -> (r: String)
    ensures
        r@.len() == count,
        forall|i: int| 0 <= i < count ==> r@[i] == ' ',
{
    let mut out = String::new();
    let mut i: usize = 0;
    while i < count
        invariant
            i <= count,
            out@.len() == i,
            forall|j: int| 0 <= j < i ==> out@[j] == ' ',
        decreases count - i,
    {
        out.append(" ");
        proof {
            reveal_strlit(" ");
        }
        i = i + 1;
    }
    out
}

/// Reconstructs the readable, control-flow-annotated trace from one captured
/// log: parses the source blocks and the trace events out of it, aligns them
/// in lock step from the resolved entry procedure, and returns the emitted
/// logical events together with their printed lines — the lines are exactly
/// the rendering of the events, and the events close with the END OF TRACE
/// marker (so the last two lines are the blank line and that marker). Any
/// fatal condition is returned instead, with nothing partial. `fuel` bounds
/// the engine's iterations.
pub fn run_log(input: &str, entry_func: &Option<String>, fuel: u64) -> (r: Result<
    (Vec<String>, Vec<engine::Event>),
    errors::RunError,
>)
    ensures
        r matches Ok(p) ==> {
            &&& render::line_views(p.0@) == render::lines_of_events(p.1@)
            &&& p.1@.len() > 0
            &&& p.1@.last() == engine::Event::EndOfTrace
            &&& p.0@.len() >= 2
            &&& p.0@[p.0@.len() - 1]@ == "END OF TRACE"@
            &&& p.0@[p.0@.len() - 2]@ == Seq::<char>::empty()
        },
{
    let (blocks, trace) = match parser::parse_trace(input) {
        Ok(t) => t,
        Err(e) => {
            return Err(e);
        },
    };
    let srcs = src_mgr::SourceManager::new(blocks);
    let mut eng = engine::Engine::new(srcs, trace);
    match eng.run(entry_func, fuel) {
        Ok(_) => {},
        Err(e) => {
            return Err(e);
        },
    }
    let events = eng.events;
    let lines = render::render_events(&events);
    proof {
        let evs = events@;
        let all = render::lines_of_events(evs);
        assert(all == render::lines_of_events(evs.drop_last()) + render::event_lines(
            engine::Event::EndOfTrace,
        ));
        assert(render::event_lines(engine::Event::EndOfTrace) =~= seq![
            Seq::<char>::empty(),
            "END OF TRACE"@,
        ]);
        assert(lines@.len() == all.len());
        assert(render::line_views(lines@)[all.len() - 1] == lines@[all.len() - 1]@);
        assert(render::line_views(lines@)[all.len() - 2] == lines@[all.len() - 2]@);
        assert(all[all.len() - 1] =~= "END OF TRACE"@);
        assert(all[all.len() - 2] =~= Seq::<char>::empty());
    }
    Ok((lines, events))
}

} // verus!
