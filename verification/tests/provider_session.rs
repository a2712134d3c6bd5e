use rag_pipeline::provider::{
    accept_embeddings, embed_request, load_model, materialize_chat_content, Backend,
    ModelProvider, StreamTranscript,
};
use rag_pipeline::session::{
    initial_state, is_exit_input, plan_turn, rag_prompt, retrieval_context, step_session,
    Mode, SessionEvent, SessionState, TurnAction,
};
use rag_pipeline::store::VectorStore;
use rag_pipeline::session::index_rows;
use rag_pipeline::prompts::contruct_propmt;
use rag_pipeline::RagError;

fn strings(items: &[&str]) -> Vec<String> {
    items.iter().map(|s| s.to_string()).collect()
}

#[test]
fn chat_only_backend_reports_unsupported_capability() {
    let gemini = load_model("Gemini").unwrap();
    let r = embed_request(&gemini, strings(&["some chunk"]));
    assert!(matches!(r, Err(RagError::UnsupportedCapability)));
    let groq = load_model("Groq").unwrap();
    let r = embed_request(&groq, strings(&["some chunk"]));
    assert!(matches!(r, Err(RagError::UnsupportedCapability)));
}

#[test]
fn embedding_request_keeps_inputs_in_order() {
    let openai = load_model("OpenAI").unwrap();
    let req = embed_request(&openai, strings(&["one", "two", "three"])).unwrap();
    assert!(matches!(req.backend, Backend::OpenAI));
    assert_eq!(req.inputs, vec!["one", "two", "three"]);
}

#[test]
fn accepted_embeddings_come_back_unchanged_and_in_order() {
    let openai = load_model("OpenAI").unwrap();
    let raw = vec![vec![1, 2], vec![3, 4], vec![5, 6]];
    let vs = accept_embeddings(&openai, 3, 2, raw.clone()).unwrap();
    assert_eq!(vs, raw);
}

#[test]
fn wrong_batch_size_is_a_provider_error_naming_the_backend() {
    let openai = load_model("OpenAI").unwrap();
    let r = accept_embeddings(&openai, 3, 2, vec![vec![1, 2]]);
    match r {
        Err(RagError::ProviderError { backend, cause }) => {
            assert_eq!(backend, "OpenAI");
            assert!(!cause.is_empty());
        }
        other => panic!("expected a provider error, got {:?}", other),
    }
}

#[test]
fn wrong_vector_length_is_a_dimension_mismatch() {
    let openai = load_model("OpenAI").unwrap();
    let r = accept_embeddings(&openai, 2, 2, vec![vec![1, 2], vec![3]]);
    assert!(matches!(r, Err(RagError::DimensionMismatch)));
}

#[test]
fn backend_selection_matches_menu_names() {
    assert!(matches!(load_model("OpenAI").unwrap().backend, Backend::OpenAI));
    assert!(matches!(load_model("Gemini").unwrap().backend, Backend::Gemini));
    assert!(matches!(load_model("Groq").unwrap().backend, Backend::Groq));
    assert!(load_model("Mistral").is_none());
    assert!(load_model("openai").is_none());
    assert_eq!(load_model("OpenAI").unwrap().model, "gpt-4o");
    assert_eq!(load_model("Groq").unwrap().model, "llama-3.3-70b-versatile");
}

#[test]
fn credential_variables_name_each_backend() {
    assert_eq!(Backend::OpenAI.credential_var(), "OPENAI_API_KEY");
    assert_eq!(Backend::Gemini.credential_var(), "GEMINI_API_KEY");
    assert_eq!(Backend::Groq.credential_var(), "GROQ_API_KEY");
    assert!(Backend::OpenAI.supports_embedding());
    assert!(!Backend::Gemini.supports_embedding());
}

#[test]
fn missing_chat_content_falls_back_to_fixed_text() {
    assert_eq!(materialize_chat_content(Some("hello".to_string())), "hello");
    assert_eq!(materialize_chat_content(None), "(no response)");
}

#[test]
fn stream_transcript_keeps_fragments_in_emission_order() {
    let mut t = StreamTranscript::new();
    t.push_fragment("Hel".to_string());
    t.push_fragment("lo ".to_string());
    t.push_fragment("world".to_string());
    assert_eq!(t.concatenated(), "Hello world");
    assert_eq!(t.fragments, vec!["Hel", "lo ", "world"]);
}

#[test]
fn exit_sentinel_is_case_insensitive() {
    assert!(is_exit_input("exit"));
    assert!(is_exit_input("EXIT"));
    assert!(is_exit_input("Exit"));
    assert!(is_exit_input("eXiT"));
    assert!(!is_exit_input("exit "));
    assert!(!is_exit_input("quit"));
    assert!(!is_exit_input(""));
}

#[test]
fn planning_a_turn_follows_the_mode() {
    assert!(matches!(plan_turn(Mode::DirectChat, "EXIT"), TurnAction::Quit));
    match plan_turn(Mode::DirectChat, "hello") {
        TurnAction::Chat(p) => assert_eq!(p, "hello"),
        other => panic!("expected a chat turn, got {:?}", other),
    }
    match plan_turn(Mode::Rag, "what is this about?") {
        TurnAction::RagQuery(p) => assert_eq!(p, "what is this about?"),
        other => panic!("expected a retrieval turn, got {:?}", other),
    }
}

#[test]
fn session_states_follow_the_turn_loop() {
    assert_eq!(initial_state(Mode::Rag), SessionState::Indexing);
    assert_eq!(initial_state(Mode::DirectChat), SessionState::AwaitingPrompt);
    assert_eq!(
        step_session(SessionState::Indexing, SessionEvent::IndexBuilt),
        SessionState::AwaitingPrompt
    );
    assert_eq!(
        step_session(SessionState::Indexing, SessionEvent::IndexFailed),
        SessionState::Terminated
    );
    assert_eq!(
        step_session(SessionState::AwaitingPrompt, SessionEvent::PromptRead),
        SessionState::Responding
    );
    assert_eq!(
        step_session(SessionState::AwaitingPrompt, SessionEvent::ExitRead),
        SessionState::Terminated
    );
    assert_eq!(
        step_session(SessionState::Responding, SessionEvent::TurnCompleted),
        SessionState::AwaitingPrompt
    );
    // A failed turn is abandoned, but the session survives.
    assert_eq!(
        step_session(SessionState::Responding, SessionEvent::TurnFailed),
        SessionState::AwaitingPrompt
    );
    // An event that does not belong to the state changes nothing.
    assert_eq!(
        step_session(SessionState::Terminated, SessionEvent::PromptRead),
        SessionState::Terminated
    );
}

#[test]
fn grounding_prompt_splices_context_and_question() {
    let got = contruct_propmt("What is the budget?", "The budget is 40 units.");
    let expected = format!(
        "{}{}{}{}{}",
        "\nCompose a comprehensive reply to the user query using the context given to you.\nMake sure to follow below rules:\n1. Please refrain from inventing answers.\n2. Refuse to answer any question outside of provided context.\n3. Understand the content very carefully to answer questions\n\nUse the following parameters to answer the question:\n---------\n\nCONTEXT:\n",
        "The budget is 40 units.",
        "\n\nQUESTION:\n",
        "What is the budget?",
        "\n"
    );
    assert_eq!(got, expected);
}

#[test]
fn retrieved_contents_concatenate_without_separator() {
    let ctx = retrieval_context(&strings(&["alpha", "beta", "gamma"]));
    assert_eq!(ctx, "alphabetagamma");
    assert_eq!(retrieval_context(&Vec::new()), "");
}

#[test]
fn rag_prompt_uses_the_concatenated_context() {
    let got = rag_prompt("q?", &strings(&["one", "two"]));
    assert_eq!(got, contruct_propmt("q?", "onetwo"));
}

#[test]
fn indexing_persists_one_row_per_chunk() {
    let mut store = VectorStore::new();
    index_rows(
        &mut store,
        "docs_embeddings",
        strings(&["id0", "id1"]),
        strings(&["chunk zero", "chunk one"]),
        strings(&["doc", "doc"]),
        vec![vec![0, 0], vec![9, 9]],
        2,
    )
    .unwrap();
    let table = store.get_table("docs_embeddings").unwrap();
    assert_eq!(table.row_count(), 2);
    assert_eq!(table.dims(), 2);
    let found = rag_pipeline::store::execute_query(table, &vec![0, 1], 2).unwrap();
    assert_eq!(found, vec!["chunk zero", "chunk one"]);
}

#[test]
fn indexing_rejects_zero_dimensions_and_bad_batches() {
    let mut store = VectorStore::new();
    let r = index_rows(
        &mut store,
        "docs",
        strings(&["id0"]),
        strings(&["chunk"]),
        strings(&["doc"]),
        vec![vec![]],
        0,
    );
    assert!(matches!(r, Err(RagError::DimensionMismatch)));
    let r = index_rows(
        &mut store,
        "docs",
        strings(&["id0"]),
        strings(&["chunk"]),
        strings(&["doc"]),
        vec![vec![1, 2, 3]],
        2,
    );
    assert!(matches!(r, Err(RagError::DimensionMismatch)));
}

#[test]
fn errors_describe_themselves() {
    assert_eq!(
        RagError::UnsupportedCapability.describe(),
        "backend does not support embeddings"
    );
    assert_eq!(
        RagError::ProviderError {
            backend: "OpenAI".to_string(),
            cause: "timeout".to_string()
        }
        .describe(),
        "provider error from OpenAI: timeout"
    );
    assert!(!RagError::StoreError.describe().is_empty());
    assert!(!RagError::InvalidConfig.describe().is_empty());
    assert!(!RagError::SourceReadError.describe().is_empty());
    assert!(!RagError::DimensionMismatch.describe().is_empty());
}

#[test]
fn provider_selection_is_immutable_data() {
    let p = ModelProvider {
        backend: Backend::Groq,
        model: "llama-3.3-70b-versatile".to_string(),
    };
    let q = p.clone();
    assert!(matches!(q.backend, Backend::Groq));
    assert_eq!(q.model, p.model);
}
