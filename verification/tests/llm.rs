use semquery::error::{DocqError, LlmError};
use semquery::llm::{
    prompt_budget, truncation_warning, BatchEntry, Generation, GenerationAction, GenerationInput,
};
use semquery::models::LlmConfig;

fn config(n_ctx: u32, max_tokens: usize) -> LlmConfig {
    LlmConfig { n_ctx, max_tokens, ..LlmConfig::default() }
}

/// Runs a model that samples the given tokens and then ends the text.
fn generate(prompt: &[i32], config: &LlmConfig, samples: &[i32]) -> (String, Vec<String>, Vec<BatchEntry>) {
    let (mut state, mut fed) = Generation::new(prompt, config);
    let mut input = GenerationInput::Fed;
    let mut streamed = Vec::new();
    let mut samples = samples.iter();
    loop {
        let (next, action) = state.next(input);
        state = next;
        input = match action {
            GenerationAction::Sample => match samples.next() {
                Some(token) => GenerationInput::Sampled { token: *token, ends: false },
                None => GenerationInput::Sampled { token: 0, ends: true },
            },
            GenerationAction::Spell { token } => {
                GenerationInput::Spelled { piece: format!("<{token}>") }
            }
            GenerationAction::Emit { piece, entry } => {
                streamed.push(piece);
                fed.push(entry);
                GenerationInput::Fed
            }
            GenerationAction::Return(r) => return (r.unwrap(), streamed, fed),
            GenerationAction::Stop => panic!("generation ends with a result"),
        };
    }
}

#[test]
fn room_is_left_for_the_answer() {
    assert_eq!(prompt_budget(8192, 512), 7680);
    assert_eq!(prompt_budget(512, 512), 1);
    assert_eq!(prompt_budget(100, 512), 1);
}

#[test]
fn long_prompts_lose_their_start() {
    let (_, _, fed) = generate(&[1, 2, 3, 4, 5], &config(5, 2), &[]);
    let expected = vec![
        BatchEntry { token: 3, position: 0, logits: false },
        BatchEntry { token: 4, position: 1, logits: false },
        BatchEntry { token: 5, position: 2, logits: true },
    ];
    assert_eq!(fed, expected);
    assert_eq!(
        truncation_warning(5, 3).unwrap(),
        "[semquery] warning: prompt is 5 tokens but context budget is 3; truncating from the beginning"
    );
    assert!(truncation_warning(3, 3).is_none());
}

#[test]
fn streamed_pieces_make_up_the_text() {
    let (text, streamed, fed) = generate(&[7, 8], &config(100, 10), &[41, 42]);
    assert_eq!(text, "<41><42>");
    assert_eq!(streamed.concat(), text);
    assert_eq!(fed[2], BatchEntry { token: 41, position: 2, logits: true });
    assert_eq!(fed[3], BatchEntry { token: 42, position: 3, logits: true });
}

#[test]
fn no_more_tokens_than_allowed_are_generated() {
    let (text, _, fed) = generate(&[1], &config(4, 3), &[10, 11, 12, 13, 14]);
    assert_eq!(text, "<10><11><12>");
    assert!(fed.iter().all(|e| e.position < 4));
    let (text, _, _) = generate(&[1], &config(4, 0), &[10]);
    assert_eq!(text, "");
}

#[test]
fn a_failing_model_ends_the_run() {
    let (state, _) = Generation::new(&[1], &config(10, 5));
    let (state, action) = state.next(GenerationInput::Failed { message: "lost".into() });
    match action {
        GenerationAction::Return(Err(DocqError::Llm(LlmError::InferenceFailed(m)))) => {
            assert_eq!(m, "lost")
        }
        _ => panic!("the model failed"),
    }
    let (_, action) = state.next(GenerationInput::Fed);
    assert!(matches!(action, GenerationAction::Stop));
}
