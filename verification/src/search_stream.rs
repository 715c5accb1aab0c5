//! The frame pump of a streamed search: upstream frames go through the scanner, and
//! only frames that settle something are sent on.

use crate::search_scan::{flat, Piece, Scan, SearchHitsScanner};
use vstd::prelude::*;

verus! {

/// What the upstream body yields when it is pulled.
pub enum FrameEvent {
    /// A data frame.
    Data(Vec<u8>),
    /// A frame without data, such as trailers.
    NoData,
    /// The body failed.
    Failed,
    /// The body ended.
    End,
}

/// What the pump does next.
pub enum FrameAction {
    /// Pull the next frame.
    Pull,
    /// Shape these pieces and send them.
    Send(Vec<Piece>),
    /// Pass the failure on.
    Fail,
    /// End the response.
    Stop,
}

/// The state of the pump.
pub enum Stage {
    /// Frames are still to come.
    Active(SearchHitsScanner),
    /// The response has ended.
    Done,
}

impl Stage {
    /// Between two frames nothing waits in the scanner.
    pub open spec fn ready(self) -> bool {
        self matches Stage::Active(scanner) ==> scanner.drained()
    }
}

/// The pump before the first frame.
pub fn start() -> (r: Stage)
    ensures
        r is Active,
        r.ready(),
        r->Active_0@ == Scan::start(),
{
    Stage::Active(SearchHitsScanner::new())
}

/// Takes one event from the upstream body. A frame that settles nothing sends
/// nothing: the next one is pulled. A failure ends the response as a failure.
pub fn next_frame(stage: Stage, event: FrameEvent) -> (r: (Stage, FrameAction))
    requires
        stage.ready(),
        stage is Active && event is Data ==> stage->Active_0@.cursor.depth
            + event->Data_0@.len() <= u64::MAX,
    ensures
        r.0.ready(),
        match (stage, event) {
            (Stage::Done, _) => r.0 is Done && r.1 is Stop,
            (Stage::Active(s), FrameEvent::Data(data)) => {
                &&& r.0 is Active
                &&& r.0->Active_0@ == s@.run(data@)
                &&& match r.1 {
                    FrameAction::Pull => s@.output(data@).len() == 0,
                    FrameAction::Send(pieces) => pieces@.len() > 0 && flat(pieces@)
                        == s@.output(data@),
                    _ => false,
                }
            },
            (Stage::Active(s), FrameEvent::NoData) => r.0 == stage && r.1 is Pull,
            (Stage::Active(_), FrameEvent::Failed) => r.0 is Done && r.1 is Fail,
            (Stage::Active(_), FrameEvent::End) => r.0 is Done && r.1 is Stop,
        },
{
    match stage {
        Stage::Done => (Stage::Done, FrameAction::Stop),
        Stage::Active(scanner) => match event {
            FrameEvent::Data(data) => {
                let mut scanner = scanner;
                let pieces = scanner.feed(data.as_slice());
                if pieces.len() > 0 {
                    (Stage::Active(scanner), FrameAction::Send(pieces))
                } else {
                    (Stage::Active(scanner), FrameAction::Pull)
                }
            },
            FrameEvent::NoData => (Stage::Active(scanner), FrameAction::Pull),
            FrameEvent::Failed => (Stage::Done, FrameAction::Fail),
            FrameEvent::End => {
                let _rest = scanner.finish();
                (Stage::Done, FrameAction::Stop)
            },
        },
    }
}

} // verus!
