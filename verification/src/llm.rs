//! Generating text, token by token.
//!
//! The caller runs the language model; which tokens it is fed, at which
//! positions, and what is made of those that it samples is decided here.

use vstd::prelude::*;

use crate::error::{DocqError, LlmError, Result};
use crate::models::LlmConfig;
use crate::text;

verus! {

/// The number of prompt tokens that leave room for the answer in the context
/// window. There is always room for one.
pub open spec fn budget(n_ctx: nat, max_tokens: nat) -> nat {
    if n_ctx > max_tokens {
        (n_ctx - max_tokens) as nat
    } else {
        1
    }
}

/// The number of prompt tokens that leave room for the answer.
pub fn prompt_budget(n_ctx: u32, max_tokens: usize) -> (r: usize)
    ensures
        r == budget(n_ctx as nat, max_tokens as nat),
{
    let n_ctx: usize = n_ctx as usize;
    if n_ctx > max_tokens {
        n_ctx - max_tokens
    } else {
        1
    }
}

/// The last `n` tokens, or all of them where there are fewer.
pub open spec fn tail(tokens: Seq<i32>, n: nat) -> Seq<i32> {
    if tokens.len() > n {
        tokens.skip(tokens.len() - n)
    } else {
        tokens
    }
}

/// What the user is told about a prompt that does not fit.
pub open spec fn truncation_text(n: nat, budget: nat) -> Seq<char> {
    "[semquery] warning: prompt is "@ + text::decimal(n) + " tokens but context budget is "@
        + text::decimal(budget) + "; truncating from the beginning"@
}

/// What to tell the user about a prompt of `n` tokens, if it does not fit.
pub fn truncation_warning(n: usize, budget: usize) -> (r: Option<String>)
    ensures
        match r {
            Some(message) => n > budget && message@ == truncation_text(n as nat, budget as nat),
            None => n <= budget,
        },
{
    if n > budget {
        let mut out = "[semquery] warning: prompt is ".to_string();
        text::push_decimal(&mut out, n as u128);
        out.append(" tokens but context budget is ");
        text::push_decimal(&mut out, budget as u128);
        out.append("; truncating from the beginning");
        Some(out)
    } else {
        None
    }
}

/// A token that the model is fed.
#[derive(Debug, Clone, Copy, PartialEq, Eq, Structural)]
pub struct BatchEntry {
    pub token: i32,
    /// Position in the context window.
    pub position: i32,
    /// Whether the model is to say what may come next.
    pub logits: bool,
}

/// The tokens of a prompt as they are fed: one position after the other, and
/// what comes next is asked for at the last one only.
pub open spec fn prompt_batch(tokens: Seq<i32>) -> Seq<BatchEntry> {
    Seq::new(
        tokens.len(),
        |i: int|
            BatchEntry { token: tokens[i], position: i as i32, logits: i == tokens.len() - 1 },
    )
}

/// A text that is being generated.
#[derive(Debug)]
pub struct Draft {
    /// Number of prompt tokens.
    pub prompt_len: usize,
    /// Maximum number of tokens to generate.
    pub max_tokens: usize,
    /// Number of tokens generated so far.
    pub step: usize,
    /// The text so far.
    pub output: String,
}

/// One run of a language model. The variants say what the run waits for.
#[derive(Debug)]
pub enum Generation {
    /// The model is fed the prompt, or the last token.
    Feeding { draft: Draft },
    /// A token is sampled.
    Sampling { draft: Draft },
    /// The text of a token is looked up.
    Spelling { draft: Draft, token: i32 },
    Done,
}

/// What came of the last action of a [`Generation`].
#[derive(Debug)]
pub enum GenerationInput {
    /// The model has taken what it was fed.
    Fed,
    /// A token was sampled, which may be one that ends the text.
    Sampled { token: i32, ends: bool },
    /// The text of the token.
    Spelled { piece: String },
    /// The model failed.
    Failed { message: String },
}

/// What a [`Generation`] wants done.
#[derive(Debug)]
pub enum GenerationAction {
    /// Sample a token.
    Sample,
    /// Look up the text of a token.
    Spell { token: i32 },
    /// Hand out a piece of the text, then feed the model its token.
    Emit { piece: String, entry: BatchEntry },
    /// The text is complete, or the model failed.
    Return(Result<String>),
    Stop,
}

impl Draft {
    /// Whether all positions can be numbered.
    pub open spec fn fits(self) -> bool {
        &&& self.step <= self.max_tokens
        &&& self.prompt_len + self.max_tokens <= i32::MAX
    }
}

impl Generation {
    pub open spec fn draft(self) -> Option<Draft> {
        match self {
            Generation::Feeding { draft } => Some(draft),
            Generation::Sampling { draft } => Some(draft),
            Generation::Spelling { draft, .. } => Some(draft),
            Generation::Done => None,
        }
    }

    /// Whether all positions can be numbered, and there is room for a token
    /// where one is being generated.
    pub open spec fn fits(self) -> bool {
        match self {
            Generation::Feeding { draft } => draft.fits(),
            Generation::Sampling { draft } => draft.fits() && draft.step < draft.max_tokens,
            Generation::Spelling { draft, .. } => draft.fits() && draft.step < draft.max_tokens,
            Generation::Done => true,
        }
    }
}

/// The state and the action of a [`Generation`] after `input`.
pub open spec fn generation_steps(
    before: Generation,
    input: GenerationInput,
    after: Generation,
    action: GenerationAction,
) -> bool {
    match (before, input) {
        (Generation::Feeding { draft }, GenerationInput::Fed) => {
            if draft.step < draft.max_tokens {
                after == (Generation::Sampling { draft }) && action == GenerationAction::Sample
            } else {
                after == Generation::Done && action == GenerationAction::Return(Ok(draft.output))
            }
        },
        (Generation::Sampling { draft }, GenerationInput::Sampled { token, ends }) => {
            if ends {
                after == Generation::Done && action == GenerationAction::Return(Ok(draft.output))
            } else {
                &&& after == (Generation::Spelling { draft, token })
                &&& action == (GenerationAction::Spell { token })
            }
        },
        (Generation::Spelling { draft, token }, GenerationInput::Spelled { piece }) => {
            &&& after matches Generation::Feeding { draft: d }
            &&& d.prompt_len == draft.prompt_len
            &&& d.max_tokens == draft.max_tokens
            &&& d.step == draft.step + 1
            &&& d.output@ == draft.output@ + piece@
            &&& action matches GenerationAction::Emit { piece: p, entry }
            &&& p == piece
            &&& entry.token == token
            &&& entry.position == draft.prompt_len + draft.step
            &&& entry.logits
        },
        (Generation::Done, _) => after == Generation::Done && action == GenerationAction::Stop,
        (_, GenerationInput::Failed { message }) => {
            &&& after == Generation::Done
            &&& action == GenerationAction::Return(
                Err(DocqError::Llm(LlmError::InferenceFailed(message))),
            )
        },
        _ => after == Generation::Done && action == GenerationAction::Stop,
    }
}

impl Generation {
    /// Starts a run on the tokens of a prompt: the tokens to feed the model
    /// first, which are the last ones of a prompt that does not fit.
    pub fn new(tokens: &[i32], config: &LlmConfig) -> (r: (Generation, Vec<BatchEntry>))
        requires
            tail(tokens@, budget(config.n_ctx as nat, config.max_tokens as nat)).len()
                + config.max_tokens <= i32::MAX,
        ensures
            r.1@ == prompt_batch(
                tail(tokens@, budget(config.n_ctx as nat, config.max_tokens as nat)),
            ),
            r.0.fits(),
            r.0 matches Generation::Feeding { draft } && draft.prompt_len == r.1@.len()
                && draft.max_tokens == config.max_tokens && draft.step == 0 && draft.output@
                == Seq::<char>::empty(),
    {
        let room: usize = prompt_budget(config.n_ctx, config.max_tokens);
        let ghost prompt = tail(tokens@, room as nat);
        assert(tokens.len() == tokens@.len());
        let start: usize = if tokens.len() > room {
            tokens.len() - room
        } else {
            0
        };
        let n: usize = tokens.len() - start;
        assert(prompt.len() == n);
        let mut batch: Vec<BatchEntry> = Vec::new();
        let mut i: usize = 0;
        while i < n
            invariant
                i <= n,
                start + n == tokens@.len(),
                n <= i32::MAX,
                prompt.len() == n,
                forall|k: int| 0 <= k < n ==> prompt[k] == #[trigger] tokens@[start + k],
                batch@ == prompt_batch(prompt).take(i as int),
            decreases n - i,
        {
            assert(tokens.len() == tokens@.len());
            let entry = BatchEntry {
                token: tokens[start + i],
                position: i as i32,
                logits: i == n - 1,
            };
            batch.push(entry);
            assert(prompt[i as int] == tokens@[start + i]);
            assert(batch@ =~= prompt_batch(prompt).take(i + 1));
            i += 1;
        }
        assert(batch@ =~= prompt_batch(prompt));
        let draft = Draft {
            prompt_len: n,
            max_tokens: config.max_tokens,
            step: 0,
            output: String::new(),
        };
        (Generation::Feeding { draft }, batch)
    }

    /// Takes the next step.
    pub fn next(self, input: GenerationInput) -> (r: (Generation, GenerationAction))
        requires
            self.fits(),
        ensures
            generation_steps(self, input, r.0, r.1),
            r.0.fits(),
    {
        match (self, input) {
            (Generation::Feeding { draft }, GenerationInput::Fed) => {
                if draft.step < draft.max_tokens {
                    (Generation::Sampling { draft }, GenerationAction::Sample)
                } else {
                    (Generation::Done, GenerationAction::Return(Ok(draft.output)))
                }
            },
            (Generation::Sampling { draft }, GenerationInput::Sampled { token, ends }) => {
                if ends {
                    (Generation::Done, GenerationAction::Return(Ok(draft.output)))
                } else {
                    (Generation::Spelling { draft, token }, GenerationAction::Spell { token })
                }
            },
            (Generation::Spelling { draft, token }, GenerationInput::Spelled { piece }) => {
                let position: usize = draft.prompt_len + draft.step;
                let entry = BatchEntry { token, position: position as i32, logits: true };
                let mut output = draft.output;
                output.append(piece.as_str());
                let draft = Draft {
                    prompt_len: draft.prompt_len,
                    max_tokens: draft.max_tokens,
                    step: draft.step + 1,
                    output,
                };
                (Generation::Feeding { draft }, GenerationAction::Emit { piece, entry })
            },
            (Generation::Done, _) => (Generation::Done, GenerationAction::Stop),
            (_, GenerationInput::Failed { message }) => (
                Generation::Done,
                GenerationAction::Return(Err(DocqError::Llm(LlmError::InferenceFailed(message)))),
            ),
            _ => (Generation::Done, GenerationAction::Stop),
        }
    }
}

// ---- laws ----

/// One step of a run.
pub struct GenerationStep {
    pub before: Generation,
    pub input: GenerationInput,
    pub after: Generation,
    pub action: GenerationAction,
}

/// Whether the steps are a run: each follows from the one in front of it, and
/// the first starts with no text.
pub open spec fn is_run(run: Seq<GenerationStep>) -> bool {
    &&& forall|i: int|
        0 <= i < run.len() ==> generation_steps(
            (#[trigger] run[i]).before,
            run[i].input,
            run[i].after,
            run[i].action,
        )
    &&& forall|i: int, j: int|
        0 <= i < run.len() - 1 && j == i + 1 ==> (#[trigger] run[i]).after == (
        #[trigger] run[j]).before
    &&& run.len() > 0 ==> (run[0].before.draft() matches Some(draft) && draft.output@.len() == 0)
}

/// The text that a run has handed out, piece by piece.
pub open spec fn streamed(run: Seq<GenerationStep>) -> Seq<char>
    decreases run.len(),
{
    if run.len() == 0 {
        Seq::empty()
    } else {
        streamed(run.drop_last()) + match run.last().action {
            GenerationAction::Emit { piece, .. } => piece@,
            _ => Seq::empty(),
        }
    }
}

proof fn lemma_draft_is_streamed(run: Seq<GenerationStep>)
    requires
        is_run(run),
        run.len() > 0,
    ensures
        run.last().after.draft() matches Some(draft) ==> draft.output@ == streamed(run),
        run.last().before.draft() matches Some(draft) ==> draft.output@ == streamed(
            run.drop_last(),
        ),
    decreases run.len(),
{
    let rest = run.drop_last();
    let last = run.last();
    assert(last == run[run.len() - 1]);
    if rest.len() > 0 {
        assert forall|i: int| 0 <= i < rest.len() implies generation_steps(
            (#[trigger] rest[i]).before,
            rest[i].input,
            rest[i].after,
            rest[i].action,
        ) by {
            assert(rest[i] == run[i]);
        }
        assert forall|i: int, j: int| 0 <= i < rest.len() - 1 && j == i + 1 implies (
        #[trigger] rest[i]).after == (#[trigger] rest[j]).before by {
            assert(rest[i] == run[i]);
            assert(rest[j] == run[j]);
        }
        assert(rest[0] == run[0]);
        lemma_draft_is_streamed(rest);
        assert(rest.last() == run[run.len() - 2]);
        assert(run[run.len() - 2].after == run[run.len() - 1].before);
    } else {
        assert(streamed(rest) =~= Seq::empty());
    }
    if let Some(draft) = last.before.draft() {
        assert(draft.output@ =~= streamed(rest));
    }
    assert(streamed(run) =~= streamed(rest) + match last.action {
        GenerationAction::Emit { piece, .. } => piece@,
        _ => Seq::empty(),
    });
    if let Some(draft) = last.after.draft() {
        assert(draft.output@ =~= streamed(run));
    }
}

/// The text that a run returns is the text that it has handed out piece by
/// piece, so a streamed answer and a complete one are the same.
pub proof fn law_streamed_text_is_returned(run: Seq<GenerationStep>, text: String)
    requires
        is_run(run),
        run.len() > 0,
        run.last().action == GenerationAction::Return(Ok(text)),
    ensures
        text@ == streamed(run),
{
    lemma_draft_is_streamed(run);
    assert(run.last() == run[run.len() - 1]);
    assert(streamed(run) =~= streamed(run.drop_last()));
}

/// Where the answer is shorter than the context window, the prompt and the
/// answer stay in it: every token is fed at a position in the window.
pub proof fn law_context_is_not_exceeded(
    before: Generation,
    input: GenerationInput,
    after: Generation,
    action: GenerationAction,
    tokens: Seq<i32>,
    n_ctx: u32,
)
    requires
        generation_steps(before, input, after, action),
        before.fits(),
        before.draft() matches Some(draft) && draft.max_tokens < n_ctx && draft.prompt_len == tail(
            tokens,
            budget(n_ctx as nat, draft.max_tokens as nat),
        ).len(),
    ensures
        action matches GenerationAction::Emit { entry, .. } ==> 0 <= entry.position < n_ctx,
        after.draft() matches Some(draft) ==> after.fits() && draft.max_tokens < n_ctx
            && draft.prompt_len == tail(
            tokens,
            budget(n_ctx as nat, draft.max_tokens as nat),
        ).len(),
{
}

/// The number of steps that a run can still take at most.
pub open spec fn generation_steps_left(state: Generation) -> nat {
    match state {
        Generation::Feeding { draft } => (3 * (draft.max_tokens - draft.step) + 1) as nat,
        Generation::Sampling { draft } => (3 * (draft.max_tokens - draft.step)) as nat,
        Generation::Spelling { draft, .. } => (3 * (draft.max_tokens - draft.step) - 1) as nat,
        Generation::Done => 0,
    }
}

/// Every run ends: it generates no more tokens than it may.
pub proof fn law_generation_ends(
    before: Generation,
    input: GenerationInput,
    after: Generation,
    action: GenerationAction,
)
    requires
        generation_steps(before, input, after, action),
        before.fits(),
        before !is Done,
    ensures
        generation_steps_left(after) < generation_steps_left(before),
{
}

/// A prompt that does not fit loses its beginning: what is left of it is its last
/// tokens, as many as leave room for the answer in the context window, and at
/// least one.
pub proof fn law_prompt_keeps_its_end(tokens: Seq<i32>, n_ctx: nat, max_tokens: nat)
    ensures
        ({
            let kept = tail(tokens, budget(n_ctx, max_tokens));
            let room = vstd::math::max(n_ctx - max_tokens, 1);
            &&& kept.len() == vstd::math::min(tokens.len() as int, room)
            &&& forall|i: int|
                0 <= i < kept.len() ==> #[trigger] kept[i] == tokens[tokens.len() - kept.len() + i]
        }),
{
}

/// A prompt is fed token by token, in order, from the start of the context window
/// on, and the model is asked only behind the last one what may come next.
pub proof fn law_prompt_is_fed_in_order(tokens: Seq<i32>)
    requires
        tokens.len() <= i32::MAX,
    ensures
        prompt_batch(tokens).len() == tokens.len(),
        forall|i: int|
            0 <= i < tokens.len() ==> {
                let entry = #[trigger] prompt_batch(tokens)[i];
                &&& entry.token == tokens[i]
                &&& entry.position == i
                &&& entry.logits <==> i + 1 == tokens.len()
            },
{
}

/// A token that does not end the text is spelled, its piece is handed out and put
/// behind the text so far, and the token is fed right behind those before it.
pub proof fn law_sampled_token_goes_on(
    draft: Draft,
    token: i32,
    piece: String,
    middle: Generation,
    first: GenerationAction,
    after: Generation,
    action: GenerationAction,
)
    requires
        generation_steps(
            Generation::Sampling { draft },
            GenerationInput::Sampled { token, ends: false },
            middle,
            first,
        ),
        generation_steps(middle, GenerationInput::Spelled { piece }, after, action),
    ensures
        first == (GenerationAction::Spell { token }),
        action matches GenerationAction::Emit { piece: given, entry } && {
            &&& given == piece
            &&& entry.token == token
            &&& entry.position == draft.prompt_len + draft.step
            &&& entry.logits
        },
        after matches Generation::Feeding { draft: d } && {
            &&& d.output@ == draft.output@ + piece@
            &&& d.step == draft.step + 1
            &&& d.prompt_len == draft.prompt_len && d.max_tokens == draft.max_tokens
        },
{
}

/// The text is returned as it is where a token ends it, or where it has all the
/// tokens that it may have; before that, another token is sampled.
pub proof fn law_text_is_returned_when_it_ends(
    draft: Draft,
    token: i32,
    after: Generation,
    action: GenerationAction,
    ended: Generation,
    last: GenerationAction,
)
    requires
        generation_steps(Generation::Feeding { draft }, GenerationInput::Fed, after, action),
        generation_steps(
            Generation::Sampling { draft },
            GenerationInput::Sampled { token, ends: true },
            ended,
            last,
        ),
    ensures
        draft.step < draft.max_tokens ==> action == GenerationAction::Sample && after == (
        Generation::Sampling { draft }),
        draft.step >= draft.max_tokens ==> action == GenerationAction::Return(Ok(draft.output))
            && after == Generation::Done,
        last == GenerationAction::Return(Ok(draft.output)) && ended == Generation::Done,
{
}

/// Where the model fails, its message is returned as the error.
pub proof fn law_failure_is_returned(
    before: Generation,
    message: String,
    after: Generation,
    action: GenerationAction,
)
    requires
        !(before is Done),
        generation_steps(before, GenerationInput::Failed { message }, after, action),
    ensures
        after == Generation::Done,
        action == GenerationAction::Return(
            Err(DocqError::Llm(LlmError::InferenceFailed(message))),
        ),
{
}

} // verus!
