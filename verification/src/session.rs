//! The conversation loop as a verified state machine.
//!
//! One session is one strictly sequential pipeline: every transition depends
//! on the completed result of the previous one, so the whole loop is a
//! function from state and event to next state. The surrounding program
//! performs the outside work — reading a line, issuing the request, pulling
//! chunks off the transport, running a tool — and hands each result back as
//! an event; every decision in between is made, and verified, here.

use vstd::prelude::*;

use crate::accumulator::{
    finished_role, is_role_anomaly, merge_role, sat_inc, TurnAccumulator,
};
use crate::codec::spec_decode;
use crate::conversation::{turns_view, ConversationState, Turn, TurnModel};
use crate::errors::ErrorKind;
use crate::framing::{lines_from, tail_from};
use crate::reassembler::ChunkReassembler;
use crate::record::{Record, RecordModel, Role};
use crate::toolcall::{
    get_file_name, parse_tool_call, resolve_tool, spec_tool_call, ToolAction, ToolActionModel,
};

verus! {

/// The loop's control states.
#[derive(Clone, Copy, PartialEq, Eq, Structural, Debug)]
pub enum Phase {
    /// Blocked on a line of input from the interactive surface.
    AwaitingUserInput,
    /// A request payload is ready for the transport.
    Requesting,
    /// Response chunks are being consumed.
    Streaming,
    /// The stream is drained; the finalized turn decides what happens next.
    TurnComplete,
    /// A supported tool action awaits its result.
    InvokingTool,
    /// The loop has exited; no further requests are issued.
    Terminated,
}

/// `/bye`: the exact, case-sensitive input line that ends the session.
pub open spec fn sentinel() -> Seq<u8> {
    seq![0x2fu8, 0x62u8, 0x79u8, 0x65u8]
}

/// Exec copy of `sentinel()`.
fn sentinel_vec() -> (v: Vec<u8>)
    ensures
        v@ == sentinel(),
{
    let mut v: Vec<u8> = Vec::new();
    v.push(0x2f);
    v.push(0x62);
    v.push(0x79);
    v.push(0x65);
    proof {
        assert(v@ =~= sentinel());
    }
    v
}

/// The abstract state a response stream folds through: the history so far,
/// the turn in progress, the last finalized turn, and the reports made.
pub struct StreamFold {
    pub hist: Seq<TurnModel>,
    pub seen: Option<Role>,
    pub buf: Seq<u8>,
    pub started: bool,
    pub last: Option<TurnModel>,
    pub errors: Seq<ErrorKind>,
    pub anomalies: u64,
}

/// The turn a terminal record finalizes.
pub open spec fn completed_turn(seen: Option<Role>, buf: Seq<u8>, m: RecordModel) -> TurnModel {
    TurnModel {
        role: finished_role(merge_role(seen, m.role)),
        content: buf + m.delta,
        complete: true,
    }
}

/// One decode outcome advances the abstract stream state: a corrupted line
/// is dropped and reported; a delta accumulates; a terminal record
/// finalizes the turn and appends it to the history — unless it claims the
/// system role after the history has begun, which is reported instead.
pub open spec fn fold_outcome(st: StreamFold, o: Option<RecordModel>) -> StreamFold {
    match o {
        None => StreamFold { errors: st.errors.push(ErrorKind::Decode), ..st },
        Some(m) => {
            let anomalies = if is_role_anomaly(st.seen, m.role) {
                sat_inc(st.anomalies)
            } else {
                st.anomalies
            };
            if m.done {
                let t = completed_turn(st.seen, st.buf, m);
                if t.role == Role::System && st.hist.len() > 0 {
                    StreamFold {
                        seen: None,
                        buf: Seq::empty(),
                        started: false,
                        last: Some(t),
                        errors: st.errors.push(ErrorKind::Decode),
                        anomalies,
                        ..st
                    }
                } else {
                    StreamFold {
                        seen: None,
                        buf: Seq::empty(),
                        started: false,
                        last: Some(t),
                        hist: st.hist.push(t),
                        anomalies,
                        ..st
                    }
                }
            } else {
                StreamFold {
                    seen: merge_role(st.seen, m.role),
                    buf: st.buf + m.delta,
                    started: true,
                    anomalies,
                    ..st
                }
            }
        },
    }
}

/// Folds a whole sequence of decode outcomes, in order.
pub open spec fn fold_outcomes(st: StreamFold, os: Seq<Option<RecordModel>>) -> StreamFold
    decreases os.len(),
{
    if os.len() == 0 {
        st
    } else {
        fold_outcomes(fold_outcome(st, os[0]), os.drop_first())
    }
}

/// Folding one more outcome is one more fold step.
pub proof fn lemma_fold_snoc(st: StreamFold, os: Seq<Option<RecordModel>>)
    requires
        os.len() > 0,
    ensures
        fold_outcomes(st, os) == fold_outcome(
            fold_outcomes(st, os.take(os.len() - 1)),
            os[os.len() - 1],
        ),
    decreases os.len(),
{
    if os.len() == 1 {
        assert(os.take(0) =~= Seq::<Option<RecordModel>>::empty());
        assert(os.drop_first() =~= Seq::<Option<RecordModel>>::empty());
    } else {
        lemma_fold_snoc(fold_outcome(st, os[0]), os.drop_first());
        assert(os.take(os.len() - 1).drop_first() =~= os.drop_first().take(os.len() - 2));
        assert(os.take(os.len() - 1)[0] == os[0]);
        assert(os.drop_first()[os.len() - 2] == os[os.len() - 1]);
    }
}

/// One full interactive session, owned by one sequential control flow.
pub struct Session {
    phase: Phase,
    conv: ConversationState,
    reasm: ChunkReassembler,
    accum: TurnAccumulator,
    last_turn: Option<Turn>,
    pending_tool: Option<ToolAction>,
    errors: Vec<ErrorKind>,
}

impl Session {
    /// The loop's current control state.
    pub closed spec fn cur_phase(&self) -> Phase {
        self.phase
    }

    /// The ordered turn history.
    pub closed spec fn history(&self) -> Seq<TurnModel> {
        self.conv@
    }

    /// Every recoverable error reported so far, in order.
    pub closed spec fn errors_log(&self) -> Seq<ErrorKind> {
        self.errors@
    }

    /// The partial record line buffered by the reassembler.
    pub closed spec fn pending_stream_bytes(&self) -> Seq<u8> {
        self.reasm.pending_bytes()
    }

    /// The role observed for the turn in progress.
    pub closed spec fn turn_role_seen(&self) -> Option<Role> {
        self.accum.seen_role()
    }

    /// The text accumulated for the turn in progress.
    pub closed spec fn turn_buffered(&self) -> Seq<u8> {
        self.accum.buffered()
    }

    /// Whether a turn is in progress.
    pub closed spec fn turn_started(&self) -> bool {
        self.accum.is_started()
    }

    /// How many records contradicted the turn's first-seen role.
    pub closed spec fn anomaly_count(&self) -> u64 {
        self.accum.anomaly_count()
    }

    /// The last finalized turn of the current stream, if any.
    pub closed spec fn last_turn_model(&self) -> Option<TurnModel> {
        match self.last_turn {
            Some(t) => Some(t@),
            None => None,
        }
    }

    /// The tool action awaiting its result, if any.
    pub closed spec fn pending_action_model(&self) -> Option<ToolActionModel> {
        match self.pending_tool {
            Some(a) => Some(a@),
            None => None,
        }
    }

    /// The session's internal invariant.
    pub closed spec fn wf(&self) -> bool {
        &&& self.conv.wf()
        &&& self.reasm.wf()
        &&& (self.phase == Phase::InvokingTool ==> self.pending_tool is Some)
    }

    /// The abstract stream state this session is in.
    pub open spec fn stream_state(&self) -> StreamFold {
        StreamFold {
            hist: self.history(),
            seen: self.turn_role_seen(),
            buf: self.turn_buffered(),
            started: self.turn_started(),
            last: self.last_turn_model(),
            errors: self.errors_log(),
            anomalies: self.anomaly_count(),
        }
    }

    /// Opens a session over the seeded turns — the system prompt and the
    /// opening user messages — ready to issue the first request.
    #[verifier::loop_isolation(false)]
    pub fn new(initial: Vec<Turn>) -> (r: Session)
        requires
            forall|i: int| 0 < i < initial@.len() ==> initial@[i]@.role != Role::System,
        ensures
            r.wf(),
            r.cur_phase() == Phase::Requesting,
            r.history() == turns_view(initial@),
            r.errors_log() == Seq::<ErrorKind>::empty(),
            r.last_turn_model() is None,
            r.pending_action_model() is None,
            r.pending_stream_bytes().len() == 0,
            !r.turn_started(),
            r.anomaly_count() == 0,
    {
        let ghost init0 = initial@;
        let mut rest = initial;
        let mut conv = ConversationState::new();
        proof {
            assert(turns_view(init0.take(0)) =~= Seq::<TurnModel>::empty());
            assert(init0.skip(0) =~= init0);
        }
        while rest.len() > 0
            invariant
                rest@.len() <= init0.len(),
                rest@ == init0.skip(init0.len() - rest@.len()),
                conv@ == turns_view(init0.take(init0.len() - rest@.len())),
                conv.wf(),
            decreases rest@.len(),
        {
            let ghost k = init0.len() - rest@.len();
            let t = rest.remove(0);
            proof {
                assert(t == init0[k as int]);
                if t@.role == Role::System {
                    assert(k == 0);
                    assert(conv@.len() == 0);
                }
            }
            conv.append(t);
            proof {
                assert(rest@ =~= init0.skip(k + 1));
                assert(turns_view(init0.take(k + 1)) =~= turns_view(init0.take(k as int)).push(
                    init0[k as int]@,
                ));
            }
        }
        proof {
            assert(init0.take(init0.len() as int) =~= init0);
        }
        Session {
            phase: Phase::Requesting,
            conv,
            reasm: ChunkReassembler::new(),
            accum: TurnAccumulator::new(),
            last_turn: None,
            pending_tool: None,
            errors: Vec::new(),
        }
    }

    /// The loop's current control state, for the surrounding program.
    pub fn phase(&self) -> (p: Phase)
        ensures
            p == self.cur_phase(),
    {
        self.phase
    }

    /// The reports made so far, for the surrounding program and for tests.
    pub fn errors(&self) -> (r: &Vec<ErrorKind>)
        ensures
            r@ == self.errors_log(),
    {
        &self.errors
    }

    /// How many records contradicted their turn's first-seen role.
    pub fn role_anomalies(&self) -> (n: u64)
        ensures
            n == self.anomaly_count(),
    {
        self.accum.anomalies()
    }

    /// Consumes one line of user input. The termination sentinel ends the
    /// loop without issuing a request, whatever the history holds; any other
    /// line — the empty one included — becomes a user turn and a request.
    pub fn on_user_line(&mut self, line: Vec<u8>)
        requires
            old(self).wf(),
            old(self).cur_phase() == Phase::AwaitingUserInput,
        ensures
            final(self).wf(),
            line@ == sentinel() ==> {
                &&& final(self).cur_phase() == Phase::Terminated
                &&& final(self).history() == old(self).history()
            },
            line@ != sentinel() ==> {
                &&& final(self).cur_phase() == Phase::Requesting
                &&& final(self).history() == old(self).history().push(
                    TurnModel { role: Role::User, content: line@, complete: true },
                )
            },
            final(self).errors_log() == old(self).errors_log(),
    {
        let s = sentinel_vec();
        if crate::toolcall::bytes_eq(&line, &s) {
            self.phase = Phase::Terminated;
        } else {
            self.conv.append(Turn::new(Role::User, line, true));
            self.phase = Phase::Requesting;
        }
    }

    /// The number of turns in the history.
    pub fn history_len(&self) -> (n: usize)
        ensures
            n == self.history().len(),
    {
        self.conv.len()
    }

    /// The ordered history, read-only, for reporting and tests.
    pub fn history_turns(&self) -> (r: &Vec<Turn>)
        ensures
            turns_view(r@) == self.history(),
    {
        self.conv.snapshot()
    }

    /// The request payload: the whole history, verbatim and in order.
    pub fn request_turns(&self) -> (r: &Vec<Turn>)
        requires
            self.cur_phase() == Phase::Requesting,
        ensures
            turns_view(r@) == self.history(),
    {
        self.conv.snapshot()
    }

    /// The transport accepted the request and its stream begins.
    pub fn on_transport_ok(&mut self)
        requires
            old(self).wf(),
            old(self).cur_phase() == Phase::Requesting,
        ensures
            final(self).wf(),
            final(self).cur_phase() == Phase::Streaming,
            final(self).history() == old(self).history(),
            final(self).errors_log() == old(self).errors_log(),
            final(self).anomaly_count() == old(self).anomaly_count(),
            final(self).pending_stream_bytes().len() == 0,
            !final(self).turn_started(),
            final(self).turn_buffered().len() == 0,
            final(self).turn_role_seen() is None,
            final(self).last_turn_model() is None,
    {
        self.drop_partial_state();
        self.phase = Phase::Streaming;
    }

    /// The transport failed: the error is reported and the loop returns to
    /// the prompt; the history is not touched.
    pub fn on_transport_err(&mut self)
        requires
            old(self).wf(),
            old(self).cur_phase() == Phase::Requesting,
        ensures
            final(self).wf(),
            final(self).cur_phase() == Phase::AwaitingUserInput,
            final(self).history() == old(self).history(),
            final(self).errors_log() == old(self).errors_log().push(ErrorKind::Transport),
    {
        self.errors.push(ErrorKind::Transport);
        self.phase = Phase::AwaitingUserInput;
    }

    /// Drops anything not yet finalized: the partial line, the partial turn
    /// and the last-turn marker. Used on error recovery and before a fresh
    /// stream; the finalized history is never touched.
    pub fn drop_partial_state(&mut self)
        requires
            old(self).wf(),
        ensures
            final(self).wf(),
            final(self).cur_phase() == old(self).cur_phase(),
            final(self).history() == old(self).history(),
            final(self).errors_log() == old(self).errors_log(),
            final(self).anomaly_count() == old(self).anomaly_count(),
            final(self).pending_stream_bytes().len() == 0,
            !final(self).turn_started(),
            final(self).turn_buffered().len() == 0,
            final(self).turn_role_seen() is None,
            final(self).last_turn_model() is None,
            final(self).pending_action_model() == old(self).pending_action_model(),
    {
        let mut fresh = ChunkReassembler::new();
        std::mem::swap(&mut self.reasm, &mut fresh);
        let _ = self.accum.take_partial();
        self.last_turn = None;
    }

    /// Consumes one chunk of the response stream: every line it completes is
    /// decoded and folded into the session, exactly as `fold_outcome` says,
    /// outcome by outcome. A corrupted line is reported and skipped; the
    /// stream goes on.
    #[verifier::loop_isolation(false)]
    pub fn on_chunk(&mut self, chunk: &Vec<u8>) -> (evs: Vec<Option<Record>>)
        requires
            old(self).wf(),
            old(self).cur_phase() == Phase::Streaming,
        ensures
            crate::reassembler::outcomes_match(
                evs@,
                lines_from(old(self).pending_stream_bytes(), chunk@),
            ),
            final(self).wf(),
            final(self).cur_phase() == Phase::Streaming,
            final(self).pending_stream_bytes() == tail_from(
                old(self).pending_stream_bytes(),
                chunk@,
            ),
            final(self).stream_state() == fold_outcomes(
                old(self).stream_state(),
                lines_from(old(self).pending_stream_bytes(), chunk@).map_values(
                    |l: Seq<u8>| spec_decode(l),
                ),
            ),
            final(self).pending_action_model() == old(self).pending_action_model(),
    {
        let ghost st0 = old(self).stream_state();
        let ghost lines = lines_from(old(self).pending_stream_bytes(), chunk@);
        let ghost os = lines.map_values(|l: Seq<u8>| spec_decode(l));
        let evs = self.reasm.feed(chunk);
        proof {
            assert(os.take(0) =~= Seq::<Option<RecordModel>>::empty());
        }
        let mut k: usize = 0;
        while k < evs.len()
            invariant
                k <= evs@.len(),
                evs@.len() == os.len(),
                self.conv.wf(),
                self.reasm.wf(),
                self.phase == Phase::Streaming,
                self.pending_tool == old(self).pending_tool,
                self.reasm.pending_bytes() == tail_from(old(self).pending_stream_bytes(), chunk@),
                self.stream_state() == fold_outcomes(st0, os.take(k as int)),
            decreases evs@.len() - k,
        {
            let ghost st_k = fold_outcomes(st0, os.take(k as int));
            proof {
                assert(crate::reassembler::outcome_matches(evs@[k as int], spec_decode(
                    lines[k as int],
                )));
                assert(os[k as int] == spec_decode(lines[k as int]));
                lemma_fold_snoc(st0, os.take(k + 1));
                assert(os.take(k + 1).take(k as int) =~= os.take(k as int));
                assert(os.take(k + 1)[k as int] == os[k as int]);
            }
            let ev = &evs[k];
            match ev {
                Option::None => {
                    self.errors.push(ErrorKind::Decode);
                },
                Option::Some(rec) => {
                    let done = self.accum.accept(rec);
                    match done {
                        Option::Some(turn) => {
                            let copy = turn.duplicate();
                            let ok = self.conv.append_stream(turn);
                            self.last_turn = Some(copy);
                            if !ok {
                                self.errors.push(ErrorKind::Decode);
                            }
                        },
                        Option::None => {},
                    }
                },
            }
            k += 1;
        }
        proof {
            assert(os.take(os.len() as int) =~= os);
        }
        evs
    }

    /// The stream ended. Unparsed pending bytes, or a turn still in
    /// progress, mean a truncated stream: reported, and the partial turn is
    /// appended marked incomplete rather than discarded, so context is not
    /// lost. Then the finalized turn is ready to be acted on.
    pub fn on_stream_end(&mut self)
        requires
            old(self).wf(),
            old(self).cur_phase() == Phase::Streaming,
        ensures
            final(self).wf(),
            final(self).cur_phase() == Phase::TurnComplete,
            final(self).pending_stream_bytes().len() == 0,
            !final(self).turn_started(),
            final(self).pending_action_model() == old(self).pending_action_model(),
            ({
                let errs1 = if old(self).pending_stream_bytes().len() != 0 {
                    old(self).errors_log().push(ErrorKind::TruncatedStream)
                } else {
                    old(self).errors_log()
                };
                if old(self).turn_started() {
                    let pt = TurnModel {
                        role: finished_role(old(self).turn_role_seen()),
                        content: old(self).turn_buffered(),
                        complete: false,
                    };
                    let appended = !(pt.role == Role::System && old(self).history().len() > 0);
                    &&& final(self).last_turn_model() == Some(pt)
                    &&& final(self).history() == (if appended {
                        old(self).history().push(pt)
                    } else {
                        old(self).history()
                    })
                    &&& final(self).errors_log() == (if appended {
                        errs1.push(ErrorKind::TruncatedStream)
                    } else {
                        errs1.push(ErrorKind::TruncatedStream).push(ErrorKind::Decode)
                    })
                } else {
                    &&& final(self).last_turn_model() == old(self).last_turn_model()
                    &&& final(self).history() == old(self).history()
                    &&& final(self).errors_log() == errs1
                }
            }),
    {
        match self.reasm.finish() {
            Ok(()) => {},
            Err(k) => {
                self.errors.push(k);
            },
        }
        match self.accum.take_partial() {
            Some(turn) => {
                self.errors.push(ErrorKind::TruncatedStream);
                let copy = turn.duplicate();
                let ok = self.conv.append_stream(turn);
                self.last_turn = Some(copy);
                if !ok {
                    self.errors.push(ErrorKind::Decode);
                }
            },
            None => {},
        }
        self.phase = Phase::TurnComplete;
    }

    /// Acts on the finalized turn: a complete turn that signals a supported
    /// tool call moves the loop to the tool; an unsupported name is reported
    /// and the loop returns to the prompt without a tool turn; anything else
    /// — no turn, an incomplete turn, ordinary content — returns to the
    /// prompt.
    pub fn on_turn_complete(&mut self)
        requires
            old(self).wf(),
            old(self).cur_phase() == Phase::TurnComplete,
        ensures
            final(self).wf(),
            final(self).history() == old(self).history(),
            final(self).last_turn_model() is None,
            ({
                match old(self).last_turn_model() {
                    Some(t) => {
                        if t.complete && spec_tool_call(t.content) is Some {
                            let c = spec_tool_call(t.content)->Some_0;
                            if c.name == get_file_name() {
                                &&& final(self).cur_phase() == Phase::InvokingTool
                                &&& final(self).pending_action_model() == Some(
                                    ToolActionModel::ReadFile(c.arg),
                                )
                                &&& final(self).errors_log() == old(self).errors_log()
                            } else {
                                &&& final(self).cur_phase() == Phase::AwaitingUserInput
                                &&& final(self).pending_action_model() is None
                                &&& final(self).errors_log() == old(self).errors_log().push(
                                    ErrorKind::UnsupportedTool,
                                )
                            }
                        } else {
                            &&& final(self).cur_phase() == Phase::AwaitingUserInput
                            &&& final(self).pending_action_model() is None
                            &&& final(self).errors_log() == old(self).errors_log()
                        }
                    },
                    None => {
                        &&& final(self).cur_phase() == Phase::AwaitingUserInput
                        &&& final(self).pending_action_model() is None
                        &&& final(self).errors_log() == old(self).errors_log()
                    },
                }
            }),
    {
        let lt = self.last_turn.take();
        match lt {
            Some(t) => {
                if t.complete {
                    match parse_tool_call(&t.content) {
                        Some(call) => {
                            match resolve_tool(call) {
                                Ok(action) => {
                                    self.pending_tool = Some(action);
                                    self.phase = Phase::InvokingTool;
                                },
                                Err(k) => {
                                    self.errors.push(k);
                                    self.pending_tool = None;
                                    self.phase = Phase::AwaitingUserInput;
                                },
                            }
                        },
                        None => {
                            self.pending_tool = None;
                            self.phase = Phase::AwaitingUserInput;
                        },
                    }
                } else {
                    self.pending_tool = None;
                    self.phase = Phase::AwaitingUserInput;
                }
            },
            None => {
                self.pending_tool = None;
                self.phase = Phase::AwaitingUserInput;
            },
        }
    }

    /// The tool action awaiting its result.
    pub fn pending_action(&self) -> (r: &Option<ToolAction>)
        ensures
            (r matches Some(a) ==> self.pending_action_model() == Some(a@)),
            (r is None ==> self.pending_action_model() is None),
    {
        &self.pending_tool
    }

    /// Consumes the tool's result. Success appends exactly one tool-role
    /// turn and goes straight back to the model, without waiting for user
    /// input; failure is reported and the loop returns to the prompt, with
    /// no tool turn appended.
    pub fn on_tool_result(&mut self, result: Result<Vec<u8>, ()>)
        requires
            old(self).wf(),
            old(self).cur_phase() == Phase::InvokingTool,
        ensures
            final(self).wf(),
            final(self).pending_action_model() is None,
            (result matches Ok(bytes) ==> {
                &&& final(self).cur_phase() == Phase::Requesting
                &&& final(self).history() == old(self).history().push(
                    TurnModel { role: Role::Tool, content: bytes@, complete: true },
                )
                &&& final(self).errors_log() == old(self).errors_log()
            }),
            (result is Err ==> {
                &&& final(self).cur_phase() == Phase::AwaitingUserInput
                &&& final(self).history() == old(self).history()
                &&& final(self).errors_log() == old(self).errors_log().push(
                    ErrorKind::ToolExecution,
                )
            }),
    {
        self.pending_tool = None;
        match result {
            Ok(bytes) => {
                self.conv.append(Turn::new(Role::Tool, bytes, true));
                self.phase = Phase::Requesting;
            },
            Err(()) => {
                self.errors.push(ErrorKind::ToolExecution);
                self.phase = Phase::AwaitingUserInput;
            },
        }
    }
}

} // verus!
