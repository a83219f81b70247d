//! Time travel: what failed moves to the past, and what it taught becomes a constraint.
use vstd::prelude::*;
use crate::effects::{is_target, lemma_travel_moves_targets, moved_to_past};
use crate::memory::{lemma_selected_weight, total_weight, ChangeView, Memory, State};
use crate::slot::{
    at_places, ids_of, selected, Query, Selection, SlotView, DERIVED, PRESENT, PROSPECTIVE,
};
use crate::text::{concat, same_text, shown, trim, trimmed_text};
use crate::tokens::{estimate_tokens, estimated_tokens};

verus! {

/// The session of a request that names none.
pub const DEFAULT_SESSION: &'static str = "default";

/// A request for time travel.
#[derive(Debug)]
pub struct TimeTravelArgs {
    pub session_id: Option<String>,
    /// Ids of the `PRESENT` slots that should move to the past.
    pub target_timeline_ids: Vec<i64>,
    /// Learned lesson, which becomes a `FUTURE` constraint.
    pub learning: String,
    /// Excerpt of the log that grounds the lesson in evidence.
    pub raw_log_excerpt: String,
    /// Origin of the constraint, `DERIVED` where none is given.
    pub constraint_type: Option<String>,
}

/// A request as a value of the specification.
pub struct ArgsView {
    pub session_id: Option<Seq<char>>,
    pub target_timeline_ids: Seq<i64>,
    pub learning: Seq<char>,
    pub raw_log_excerpt: Seq<char>,
    pub constraint_type: Option<Seq<char>>,
}

impl View for TimeTravelArgs {
    type V = ArgsView;

    open spec fn view(&self) -> ArgsView {
        ArgsView {
            session_id: shown(self.session_id),
            target_timeline_ids: self.target_timeline_ids@,
            learning: self.learning@,
            raw_log_excerpt: self.raw_log_excerpt@,
            constraint_type: shown(self.constraint_type),
        }
    }
}

/// Why a request for time travel is refused.
#[derive(Debug)]
pub enum TimeTravelError {
    /// The lesson is blank.
    NoLearning,
    /// No slot is to move.
    NoTargets,
    /// The evidence is blank.
    NoEvidence,
    /// The origin is none of the two.
    UnknownConstraintType(String),
}

/// A refusal as a value of the specification.
pub enum Refusal {
    NoLearning,
    NoTargets,
    NoEvidence,
    UnknownConstraintType(Seq<char>),
}

impl View for TimeTravelError {
    type V = Refusal;

    open spec fn view(&self) -> Refusal {
        match *self {
            TimeTravelError::NoLearning => Refusal::NoLearning,
            TimeTravelError::NoTargets => Refusal::NoTargets,
            TimeTravelError::NoEvidence => Refusal::NoEvidence,
            TimeTravelError::UnknownConstraintType(kind) => Refusal::UnknownConstraintType(kind@),
        }
    }
}

impl Refusal {
    /// What a refused request is answered.
    pub open spec fn message(self) -> Seq<char> {
        match self {
            Refusal::NoLearning => "Field 'learning' is required and cannot be empty."@,
            Refusal::NoTargets => "Field 'target_timeline_ids' must contain at least one ID."@,
            Refusal::NoEvidence =>
                "Field 'raw_log_excerpt' is required. Provide 1-2 sentences of the raw error/log that grounds this lesson in evidence. This prevents unverified constraints from being injected."@,
            Refusal::UnknownConstraintType(kind) =>
                "Field 'constraint_type' must be 'DERIVED' (default) or 'PROSPECTIVE', got '"@ + kind
                    + "'"@,
        }
    }
}

impl TimeTravelError {
    /// What a refused request is answered.
    pub fn message(&self) -> (text: String)
        ensures
            text@ == self@.message(),
    {
        match self {
            TimeTravelError::NoLearning => "Field 'learning' is required and cannot be empty.".to_owned(),
            TimeTravelError::NoTargets =>
                "Field 'target_timeline_ids' must contain at least one ID.".to_owned(),
            TimeTravelError::NoEvidence =>
                "Field 'raw_log_excerpt' is required. Provide 1-2 sentences of the raw error/log that grounds this lesson in evidence. This prevents unverified constraints from being injected.".to_owned(),
            TimeTravelError::UnknownConstraintType(kind) => concat(
                "Field 'constraint_type' must be 'DERIVED' (default) or 'PROSPECTIVE', got '",
                kind.as_str(),
                "'",
            ),
        }
    }
}

impl ArgsView {
    /// The session that is meant.
    pub open spec fn session(self) -> Seq<char> {
        match self.session_id {
            Some(session) => session,
            None => DEFAULT_SESSION@,
        }
    }

    /// The origin that is meant.
    pub open spec fn kind(self) -> Seq<char> {
        match self.constraint_type {
            Some(kind) => kind,
            None => DERIVED@,
        }
    }

    /// Why the request is refused, where it is: the first of its faults.
    pub open spec fn refusal(self) -> Option<Refusal> {
        if trim(self.learning).len() == 0 {
            Some(Refusal::NoLearning)
        } else if self.target_timeline_ids.len() == 0 {
            Some(Refusal::NoTargets)
        } else if trim(self.raw_log_excerpt).len() == 0 {
            Some(Refusal::NoEvidence)
        } else if self.kind() != DERIVED@ && self.kind() != PROSPECTIVE@ {
            Some(Refusal::UnknownConstraintType(self.kind()))
        } else {
            None
        }
    }
}

/// The slots that a request moves: those in the present of its session that it asks for.
pub open spec fn targets(state: State, args: ArgsView) -> Seq<SlotView> {
    selected(
        state.slots,
        Query::in_state(args.session(), PRESENT@).among(args.target_timeline_ids),
    )
}

/// The memory after a request that is not refused: its targets are past, and the session has a new
/// constraint.
pub open spec fn travelled(state: State, args: ArgsView) -> State {
    let moved = state.step(ChangeView::ArchiveSlots(ids_of(targets(state, args))));
    moved.step(
        ChangeView::InsertSlot(moved.future_slot(args.session(), trim(args.learning), args.kind())),
    )
}

/// Why a request is refused, where it is.
pub fn refuse(args: &TimeTravelArgs) -> (error: Option<TimeTravelError>)
    ensures
        match error {
            None => args@.refusal() is None,
            Some(e) => args@.refusal() == Some(e@),
        },
{
    let kind = match &args.constraint_type {
        Some(kind) => kind.clone(),
        None => DERIVED.to_owned(),
    };
    if trimmed_text(args.learning.as_str()).as_str().is_empty() {
        return Some(TimeTravelError::NoLearning);
    }
    if args.target_timeline_ids.len() == 0 {
        return Some(TimeTravelError::NoTargets);
    }
    if trimmed_text(args.raw_log_excerpt.as_str()).as_str().is_empty() {
        return Some(TimeTravelError::NoEvidence);
    }
    if !same_text(kind.as_str(), DERIVED) && !same_text(kind.as_str(), PROSPECTIVE) {
        return Some(TimeTravelError::UnknownConstraintType(kind));
    }
    None
}

/// Moves slots from the present to the past and injects a constraint. Returns how many tokens that
/// saves, and the constraint.
pub fn execute_time_travel(memory: &mut Memory, args: TimeTravelArgs) -> (result: Result<
    (i64, String),
    TimeTravelError,
>)
    requires
        old(memory)@.valid(),
        args@.refusal() is None ==> old(memory)@.room(1),
    ensures
        final(memory)@.valid(),
        match result {
            Ok((tokens_saved, learning)) => {
                &&& args@.refusal() is None
                &&& tokens_saved == estimated_tokens(
                    total_weight(targets(old(memory)@, args@)) as int,
                )
                &&& learning@ == trim(args@.learning)
                &&& final(memory)@ == travelled(old(memory)@, args@)
                &&& final(memory)@.slots.len() == old(memory)@.slots.len() + 1
                &&& forall|i: int|
                    0 <= i < old(memory)@.slots.len() ==> #[trigger] final(memory)@.slots[i]
                        == if is_target(args@, old(memory)@.slots[i]) {
                        moved_to_past(old(memory)@.slots[i])
                    } else {
                        old(memory)@.slots[i]
                    }
            },
            Err(error) => {
                &&& args@.refusal() == Some(error@)
                &&& final(memory)@ == old(memory)@
            },
        },
{
    if let Some(error) = refuse(&args) {
        return Err(error);
    }
    let session = match &args.session_id {
        Some(session) => session.clone(),
        None => DEFAULT_SESSION.to_owned(),
    };
    let learning = trimmed_text(args.learning.as_str());
    let kind = match &args.constraint_type {
        Some(kind) => kind.clone(),
        None => DERIVED.to_owned(),
    };
    proof {
        lemma_travel_moves_targets(memory@, args@);
    }
    let selection = Selection {
        session: session.as_str(),
        state: Some(PRESENT),
        ids: Some(&args.target_timeline_ids),
        logged: false,
    };
    let at = memory.find(&selection);
    assert(at_places(memory@.slots, at@) == targets(memory@, args@));
    proof {
        lemma_selected_weight(memory@.slots, selection@);
    }
    let tokens_saved: i64 = estimate_tokens(memory.weight_at(&at));
    let ids = memory.ids_at(&at);
    memory.archive(ids);
    memory.insert_future(session.as_str(), learning.as_str(), kind.as_str());
    Ok((tokens_saved, learning))
}

} // verus!
