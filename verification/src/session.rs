//! The session orchestrator: which mode a session runs in, how it moves
//! between states from turn to turn, and the per-turn computations that tie
//! chunking, retrieval and prompting together.
//!
//! The outer loop that reads prompts and performs network calls lives outside
//! the library; it feeds events and plain values in and acts on the decisions
//! made here.

use vstd::prelude::*;
use crate::errors::RagError;
use crate::prompts::{contruct_propmt, grounding_prompt};
use crate::store::{Schema, VectorStore, make_schema, prepare_data, rows_consistent};

verus! {

/// The two ways a session can run, selected once at session start.
#[derive(Debug, Clone, Copy, PartialEq, Eq, Structural)]
pub enum Mode {
    /// Prompts go straight to the chat backend.
    DirectChat,
    /// Prompts are grounded on retrieved context from an indexed document.
    Rag,
}

/// Where a session stands between events.
#[derive(Debug, Clone, Copy, PartialEq, Eq, Structural)]
pub enum SessionState {
    /// The document is being ingested, chunked, embedded and stored.
    Indexing,
    /// The session waits for the next prompt.
    AwaitingPrompt,
    /// A prompt is being answered.
    Responding,
    /// The session is over.
    Terminated,
}

/// What happened since the last state was reached.
#[derive(Debug, Clone, Copy, PartialEq, Eq, Structural)]
pub enum SessionEvent {
    /// The index was built and persisted.
    IndexBuilt,
    /// Indexing failed; without an index the session cannot proceed.
    IndexFailed,
    /// The exit sentinel was read.
    ExitRead,
    /// An ordinary prompt was read.
    PromptRead,
    /// The current turn finished.
    TurnCompleted,
    /// The current turn failed; the turn is abandoned but the session and
    /// its index survive.
    TurnFailed,
}

/// The state a session enters on `event`: indexing failure is fatal, a turn
/// failure only abandons the turn, and the exit sentinel ends the session.
/// An event that does not belong to the state leaves the state alone.
pub open spec fn spec_step(state: SessionState, event: SessionEvent) -> SessionState {
    match (state, event) {
        (SessionState::Indexing, SessionEvent::IndexBuilt) => SessionState::AwaitingPrompt,
        (SessionState::Indexing, SessionEvent::IndexFailed) => SessionState::Terminated,
        (SessionState::AwaitingPrompt, SessionEvent::ExitRead) => SessionState::Terminated,
        (SessionState::AwaitingPrompt, SessionEvent::PromptRead) => SessionState::Responding,
        (SessionState::Responding, SessionEvent::TurnCompleted) => SessionState::AwaitingPrompt,
        (SessionState::Responding, SessionEvent::TurnFailed) => SessionState::AwaitingPrompt,
        (s, _) => s,
    }
}

/// The state a session starts in: a retrieval session must index its
/// document first, a direct-chat session waits for a prompt at once.
pub fn initial_state(mode: Mode) -> (r: SessionState)
    ensures
        mode is Rag ==> r is Indexing,
        mode is DirectChat ==> r is AwaitingPrompt,
{
    match mode {
        Mode::Rag => SessionState::Indexing,
        Mode::DirectChat => SessionState::AwaitingPrompt,
    }
}

/// Advances the session state machine by one event.
pub fn step_session(state: SessionState, event: SessionEvent) -> (r: SessionState)
    ensures
        r == spec_step(state, event),
{
    match (state, event) {
        (SessionState::Indexing, SessionEvent::IndexBuilt) => SessionState::AwaitingPrompt,
        (SessionState::Indexing, SessionEvent::IndexFailed) => SessionState::Terminated,
        (SessionState::AwaitingPrompt, SessionEvent::ExitRead) => SessionState::Terminated,
        (SessionState::AwaitingPrompt, SessionEvent::PromptRead) => SessionState::Responding,
        (SessionState::Responding, SessionEvent::TurnCompleted) => SessionState::AwaitingPrompt,
        (SessionState::Responding, SessionEvent::TurnFailed) => SessionState::AwaitingPrompt,
        (s, _) => s,
    }
}

/// The input reads `exit`, compared one character at a time without regard
/// to ASCII case.
pub open spec fn spec_is_exit(s: Seq<char>) -> bool {
    &&& s.len() == 4
    &&& (s[0] == 'e' || s[0] == 'E')
    &&& (s[1] == 'x' || s[1] == 'X')
    &&& (s[2] == 'i' || s[2] == 'I')
    &&& (s[3] == 't' || s[3] == 'T')
}

/// Whether `s` is the session's exit sentinel: the word `exit` in any ASCII
/// case mix.
pub fn is_exit_input(s: &str) -> (r: bool)
    ensures
        r == spec_is_exit(s@),
{
    if s.unicode_len() != 4 {
        return false;
    }
    let c0 = s.get_char(0);
    let c1 = s.get_char(1);
    let c2 = s.get_char(2);
    let c3 = s.get_char(3);
    (c0 == 'e' || c0 == 'E') && (c1 == 'x' || c1 == 'X') && (c2 == 'i' || c2 == 'I')
        && (c3 == 't' || c3 == 'T')
}

/// What one read prompt asks the session to do.
#[derive(Debug)]
pub enum TurnAction {
    /// End the session.
    Quit,
    /// Send the prompt straight to the chat backend.
    Chat(String),
    /// Ground the prompt on retrieved context first.
    RagQuery(String),
}

/// Decides what to do with one read prompt: the exit sentinel ends the
/// session, any other input becomes a chat turn or a retrieval turn
/// according to the mode, carried through unchanged.
pub fn plan_turn(mode: Mode, input: &str) -> (r: TurnAction)
    ensures
        spec_is_exit(input@) ==> r is Quit,
        !spec_is_exit(input@) && mode is DirectChat
            ==> (r matches TurnAction::Chat(p) && p@ == input@),
        !spec_is_exit(input@) && mode is Rag
            ==> (r matches TurnAction::RagQuery(p) && p@ == input@),
{
    if is_exit_input(input) {
        TurnAction::Quit
    } else {
        match mode {
            Mode::DirectChat => TurnAction::Chat(input.to_owned()),
            Mode::Rag => TurnAction::RagQuery(input.to_owned()),
        }
    }
}

/// Concatenates retrieved chunk contents in retrieval order, with no
/// separator between them.
pub fn retrieval_context(results: &Vec<String>) -> (r: String)
    ensures
        r@ == results.deep_view().flatten(),
{
    let ghost fs = results.deep_view();
    let mut r = String::new();
    let mut i: usize = 0;
    proof {
        assert(fs.take(0) =~= Seq::<Seq<char>>::empty());
        assert(fs.take(0).flatten() =~= Seq::<char>::empty());
    }
    while i < results.len()
        invariant
            i <= fs.len(),
            fs == results.deep_view(),
            r@ == fs.take(i as int).flatten(),
        decreases fs.len() - i,
    {
        r.append(results[i].as_str());
        proof {
            assert(fs.take(i + 1) =~= fs.take(i as int).push(fs[i as int]));
            fs.take(i as int).lemma_flatten_push(fs[i as int]);
        }
        i = i + 1;
    }
    proof {
        assert(fs.take(fs.len() as int) =~= fs);
    }
    r
}

/// The grounded prompt for one retrieval turn: the retrieved contents
/// concatenated, spliced into the fixed template together with the question.
pub fn rag_prompt(question: &str, results: &Vec<String>) -> (r: String)
    ensures
        r@ == grounding_prompt(question@, results.deep_view().flatten()),
{
    let context = retrieval_context(results);
    contruct_propmt(question, context.as_str())
}

/// The indexing phase after embedding: builds one row per chunk and persists
/// the batch as the session's table, replacing any previous index of that
/// name.
///
/// Fails with `DimensionMismatch` exactly when `dims` is zero, the column
/// lengths disagree, or some embedding does not have `dims` coordinates; the
/// store is then untouched. On success the table named `table_name` holds
/// exactly one row per chunk, pairing chunk `i` with `ids[i]`, `titles[i]`
/// and `embeddings[i]`, and every other table stands as before.
pub fn index_rows(
    store: &mut VectorStore,
    table_name: &str,
    ids: Vec<String>,
    chunks: Vec<String>,
    titles: Vec<String>,
    embeddings: Vec<Vec<i32>>,
    dims: usize,
) -> (r: Result<(), RagError>)
    requires
        old(store).wf(),
    ensures
        final(store).wf(),
        match r {
            Ok(()) => {
                &&& dims > 0
                &&& rows_consistent(ids@, chunks@, titles@, embeddings@, dims as nat, (Schema { dims }))
                &&& match final(store).spec_lookup(table_name@) {
                    Some(t) => {
                        &&& t.spec_dims() == dims
                        &&& t.spec_rows().len() == chunks@.len()
                        &&& forall|i: int| 0 <= i < t.spec_rows().len() ==> {
                            &&& (#[trigger] t.spec_rows()[i]).id == ids@[i]
                            &&& t.spec_rows()[i].content == chunks@[i]
                            &&& t.spec_rows()[i].title == titles@[i]
                            &&& t.spec_rows()[i].embedding@ == embeddings@[i]@
                        }
                    },
                    None => false,
                }
                &&& forall|other: Seq<char>| other != table_name@
                    ==> #[trigger] final(store).spec_lookup(other) == old(store).spec_lookup(other)
            },
            Err(e) => {
                &&& e is DimensionMismatch
                &&& !(dims > 0 && rows_consistent(ids@, chunks@, titles@, embeddings@, dims as nat, (Schema { dims })))
                &&& *final(store) == *old(store)
            },
        },
{
    if dims == 0 {
        return Err(RagError::DimensionMismatch);
    }
    let schema = make_schema(dims);
    let rows = match prepare_data(ids, chunks, titles, embeddings, dims, schema) {
        Ok(rows) => rows,
        Err(e) => {
            return Err(e);
        },
    };
    match store.create_table(table_name, rows, schema) {
        Ok(()) => Ok(()),
        Err(e) => Err(e),
    }
}

} // verus!
