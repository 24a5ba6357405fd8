//! Chat template: sentinels for the roles, around tokenized text.

use vstd::prelude::*;
use vstd::utf8::encode_utf8;

use crate::engine::{ds4_think_max_prefix, THINK_MAX_PREFIX};
use crate::tokenizer::{tokens_of, Ds4Tokenizer, VocabView};
use crate::types::Ds4ThinkMode;

verus! {

/// The tokens that the template puts around text.
#[derive(Debug, Clone, Copy, PartialEq, Eq, Structural)]
pub struct ChatSentinels {
    pub bos: u32,
    pub user: u32,
    pub assistant: u32,
    pub think_start: u32,
    pub think_end: u32,
    pub dsml: u32,
}

/// Who speaks.
#[derive(Debug, Clone, Copy, PartialEq, Eq, Structural)]
pub enum Ds4Role {
    System,
    User,
    Assistant,
}

/// Renders conversations as tokens.
#[derive(Debug, Clone)]
pub struct Ds4ChatTemplate {
    tokenizer: Ds4Tokenizer,
    sentinels: ChatSentinels,
}

/// What a template holds.
pub struct TemplateView {
    pub vocab: VocabView,
    pub sentinels: ChatSentinels,
}

impl View for Ds4ChatTemplate {
    type V = TemplateView;

    closed spec fn view(&self) -> TemplateView {
        TemplateView { vocab: self.tokenizer@, sentinels: self.sentinels }
    }
}

impl TemplateView {
    /// The tokens of a text.
    pub open spec fn text(self, s: Seq<char>) -> Seq<u32> {
        tokens_of(self.vocab, encode_utf8(s))
    }

    /// The sentinel of a role.
    pub open spec fn role(self, role: Ds4Role) -> u32 {
        match role {
            Ds4Role::System => self.sentinels.dsml,
            Ds4Role::User => self.sentinels.user,
            Ds4Role::Assistant => self.sentinels.assistant,
        }
    }

    /// The tokens that open a conversation.
    pub open spec fn opening(self) -> Seq<u32> {
        seq![self.sentinels.bos, self.sentinels.assistant]
    }

    /// The tokens of a message.
    pub open spec fn message(self, role: Ds4Role, content: Seq<char>) -> Seq<u32> {
        seq![self.role(role)] + self.text("\n"@) + self.text(content)
    }

    /// The tokens that open the assistant's turn.
    pub open spec fn assistant_prefix(self, think: Ds4ThinkMode) -> Seq<u32> {
        let opening = seq![self.sentinels.assistant] + self.text("\n"@);
        if think == Ds4ThinkMode::High || think == Ds4ThinkMode::Max {
            opening + seq![self.sentinels.think_start] + self.text("\n"@)
        } else {
            opening
        }
    }

    /// The tokens of a whole prompt.
    pub open spec fn prompt(self, system: Seq<char>, prompt: Seq<char>, think: Ds4ThinkMode) -> Seq<
        u32,
    > {
        self.opening() + (if system.len() > 0 {
            self.message(Ds4Role::System, system)
        } else {
            Seq::empty()
        }) + self.message(Ds4Role::User, prompt) + (if think == Ds4ThinkMode::Max {
            self.text(THINK_MAX_PREFIX@)
        } else {
            Seq::empty()
        }) + self.assistant_prefix(think)
    }
}

fn append_ids(out: &mut Vec<u32>, ids: &Vec<u32>)
    ensures
        final(out)@ == old(out)@ + ids@,
{
    let ghost before = out@;
    let mut i: usize = 0;
    while i < ids.len()
        invariant
            i <= ids@.len(),
            out@ == before + ids@.take(i as int),
        decreases ids@.len() - i,
    {
        out.push(ids[i]);
        i += 1;
        assert(out@ =~= before + ids@.take(i as int));
    }
    assert(ids@.take(i as int) =~= ids@);
}

impl Ds4ChatTemplate {
    /// A template whose sentinels are all 0.
    pub fn new(tokenizer: Ds4Tokenizer) -> (t: Self)
        ensures
            t@ == (TemplateView {
                vocab: tokenizer@,
                sentinels: ChatSentinels {
                    bos: 0,
                    user: 0,
                    assistant: 0,
                    think_start: 0,
                    think_end: 0,
                    dsml: 0,
                },
            }),
    {
        Ds4ChatTemplate {
            tokenizer,
            sentinels: ChatSentinels {
                bos: 0,
                user: 0,
                assistant: 0,
                think_start: 0,
                think_end: 0,
                dsml: 0,
            },
        }
    }

    /// The template with these sentinels.
    pub fn with_sentinels(self, s: ChatSentinels) -> (t: Self)
        ensures
            t@ == (TemplateView { sentinels: s, ..self@ }),
    {
        Ds4ChatTemplate { tokenizer: self.tokenizer, sentinels: s }
    }

    /// The tokens that open a conversation.
    pub fn begin(&self) -> (r: Vec<u32>)
        ensures
            r@ == self@.opening(),
    {
        let mut out: Vec<u32> = Vec::new();
        out.push(self.sentinels.bos);
        out.push(self.sentinels.assistant);
        assert(out@ =~= self@.opening());
        out
    }

    /// Appends a message.
    pub fn append_message(&self, tokens: &mut Vec<u32>, role: Ds4Role, content: &str)
        ensures
            final(tokens)@ == old(tokens)@ + self@.message(role, content@),
    {
        match role {
            Ds4Role::System => tokens.push(self.sentinels.dsml),
            Ds4Role::User => tokens.push(self.sentinels.user),
            Ds4Role::Assistant => tokens.push(self.sentinels.assistant),
        }
        self.append_text(tokens, "\n");
        self.append_text(tokens, content);
        assert(tokens@ =~= old(tokens)@ + self@.message(role, content@));
    }

    /// Appends what opens the assistant's turn.
    pub fn append_assistant_prefix(&self, tokens: &mut Vec<u32>, think: Ds4ThinkMode)
        ensures
            final(tokens)@ == old(tokens)@ + self@.assistant_prefix(think),
    {
        tokens.push(self.sentinels.assistant);
        self.append_text(tokens, "\n");
        if think == Ds4ThinkMode::High || think == Ds4ThinkMode::Max {
            tokens.push(self.sentinels.think_start);
            self.append_text(tokens, "\n");
        }
        assert(tokens@ =~= old(tokens)@ + self@.assistant_prefix(think));
    }

    /// Appends the prefix of a maximum-effort turn.
    pub fn append_max_effort_prefix(&self, tokens: &mut Vec<u32>)
        ensures
            final(tokens)@ == old(tokens)@ + self@.text(THINK_MAX_PREFIX@),
    {
        self.append_text(tokens, ds4_think_max_prefix());
    }

    /// Appends the tokens of a text.
    pub fn append_text(&self, tokens: &mut Vec<u32>, text: &str)
        ensures
            final(tokens)@ == old(tokens)@ + self@.text(text@),
    {
        if let Ok(ids) = self.tokenizer.tokenize(text) {
            append_ids(tokens, &ids);
        }
    }

    /// Renders a whole prompt: the system's message if there is one, the user's message, and what
    /// opens the assistant's turn.
    pub fn encode_prompt(&self, system: &str, prompt: &str, think: Ds4ThinkMode) -> (r: Vec<u32>)
        ensures
            r@ == self@.prompt(system@, prompt@, think),
    {
        let mut out: Vec<u32> = self.begin();
        if !system.is_empty() {
            self.append_message(&mut out, Ds4Role::System, system);
        }
        self.append_message(&mut out, Ds4Role::User, prompt);
        if think == Ds4ThinkMode::Max {
            self.append_max_effort_prefix(&mut out);
        }
        self.append_assistant_prefix(&mut out, think);
        assert(out@ =~= self@.prompt(system@, prompt@, think));
        out
    }
}

/// A prompt opens with the opening tokens, and ends with what opens the assistant's turn.
pub proof fn law_prompt_frame(t: TemplateView, system: Seq<char>, prompt: Seq<char>, think: Ds4ThinkMode)
    ensures
        t.opening().is_prefix_of(t.prompt(system, prompt, think)),
        t.assistant_prefix(think).is_suffix_of(t.prompt(system, prompt, think)),
{
    let p = t.prompt(system, prompt, think);
    assert(t.opening() =~= p.subrange(0, t.opening().len() as int));
    let n = t.assistant_prefix(think).len();
    assert(t.assistant_prefix(think) =~= p.subrange(p.len() - n, p.len() as int));
}

/// A system text stands directly behind the two opening tokens, as the system's sentinel, a newline
/// and the text. What follows is what follows the opening tokens where there is no system text.
pub proof fn law_system_first(t: TemplateView, system: Seq<char>, prompt: Seq<char>, think: Ds4ThinkMode)
    requires
        system.len() > 0,
    ensures
        ({
            let with = t.prompt(system, prompt, think);
            let without = t.prompt(Seq::empty(), prompt, think);
            let line = tokens_of(t.vocab, encode_utf8("\n"@));
            let text = tokens_of(t.vocab, encode_utf8(system));
            &&& without.len() >= 2
            &&& with == without.take(2) + seq![t.sentinels.dsml] + line + text + without.skip(2)
        }),
{
    let with = t.prompt(system, prompt, think);
    let without = t.prompt(Seq::empty(), prompt, think);
    let line = tokens_of(t.vocab, encode_utf8("\n"@));
    let text = tokens_of(t.vocab, encode_utf8(system));
    assert(with =~= without.take(2) + seq![t.sentinels.dsml] + line + text + without.skip(2));
}

/// Without a system text and without thinking a prompt is the opening sentinel, the assistant's
/// sentinel, the user's message (the user's sentinel, a newline and the text), and directly behind
/// it the assistant's sentinel and a newline.
pub proof fn law_plain_prompt(t: TemplateView, prompt: Seq<char>)
    ensures
        ({
            let line = tokens_of(t.vocab, encode_utf8("\n"@));
            let text = tokens_of(t.vocab, encode_utf8(prompt));
            t.prompt(Seq::empty(), prompt, Ds4ThinkMode::Off) == seq![
                t.sentinels.bos,
                t.sentinels.assistant,
                t.sentinels.user,
            ] + line + text + seq![t.sentinels.assistant] + line
        }),
{
    let line = tokens_of(t.vocab, encode_utf8("\n"@));
    let text = tokens_of(t.vocab, encode_utf8(prompt));
    assert(t.prompt(Seq::empty(), prompt, Ds4ThinkMode::Off) =~= seq![
        t.sentinels.bos,
        t.sentinels.assistant,
        t.sentinels.user,
    ] + line + text + seq![t.sentinels.assistant] + line);
}

/// Thinking puts the sentinel that starts it and a newline behind the prompt that has none.
/// Thinking at most effort also puts the prefix for it between the user's message and the
/// assistant's turn.
pub proof fn law_thinking_appends(t: TemplateView, system: Seq<char>, prompt: Seq<char>)
    ensures
        ({
            let line = tokens_of(t.vocab, encode_utf8("\n"@));
            let off = t.prompt(system, prompt, Ds4ThinkMode::Off);
            let high = t.prompt(system, prompt, Ds4ThinkMode::High);
            let most = t.prompt(system, prompt, Ds4ThinkMode::Max);
            let turn = off.len() - 1 - line.len();
            &&& high == off + seq![t.sentinels.think_start] + line
            &&& turn >= 0
            &&& most == off.take(turn) + tokens_of(t.vocab, encode_utf8(THINK_MAX_PREFIX@))
                + high.skip(turn)
        }),
{
    let line = tokens_of(t.vocab, encode_utf8("\n"@));
    let off = t.prompt(system, prompt, Ds4ThinkMode::Off);
    let high = t.prompt(system, prompt, Ds4ThinkMode::High);
    let most = t.prompt(system, prompt, Ds4ThinkMode::Max);
    let turn = off.len() - 1 - line.len();
    assert(high =~= off + seq![t.sentinels.think_start] + line);
    assert(most =~= off.take(turn) + tokens_of(t.vocab, encode_utf8(THINK_MAX_PREFIX@)) + high.skip(
        turn,
    ));
}

/// A conversation that is written message by message goes on from a prompt as it began: the user's
/// next message and the assistant's turn are the end of a prompt of that message alone.
pub proof fn law_turns_follow(t: TemplateView, system: Seq<char>, prompt: Seq<char>, think: Ds4ThinkMode)
    requires
        think != Ds4ThinkMode::Max,
    ensures
        ({
            let message = t.message(Ds4Role::User, prompt);
            let turn = t.assistant_prefix(think);
            let whole = t.prompt(system, prompt, think);
            whole.skip(whole.len() - message.len() - turn.len()) == message + turn
        }),
        t.message(Ds4Role::Assistant, prompt) == seq![t.sentinels.assistant] + tokens_of(
            t.vocab,
            encode_utf8("\n"@),
        ) + tokens_of(t.vocab, encode_utf8(prompt)),
{
    let message = t.message(Ds4Role::User, prompt);
    let turn = t.assistant_prefix(think);
    let whole = t.prompt(system, prompt, think);
    assert(whole.skip(whole.len() - message.len() - turn.len()) =~= message + turn);
}

} // verus!
