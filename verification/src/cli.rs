//! The command line: which mode runs, what it asks of the engine, how a reply is decoded, and what
//! is said.

use vstd::prelude::*;
use vstd::string::{StrSliceExecFns, StringExecFns, StringSliceAdditionalSpecFns};

use crate::engine::{backend_name, Ds4Engine};
use crate::parse::{parse_number, parse_size, parsed_number, parsed_size};
use crate::session::Ds4Session;
use crate::slices::str_eq;
use crate::text::{quote, quoted, trim, trim_end, trimmed, trimmed_end};
use crate::types::{
    default_options, Ds4Backend, Ds4EngineOptions, Ds4Error, Ds4ErrorKind, OptionsView,
};

verus! {

pub const CRATE_NAME: &'static str = "ds4-cli";

pub const VERSION: &'static str = "0.1.0";

pub const ONE_SHOT_DESCRIPTION: &'static str = "Run a single prompt against the engine and exit.";

pub const REPL_DESCRIPTION: &'static str =
    "Start an interactive REPL with persistent session state.";

pub const HELP_HEAD: &'static str = "\
ds4 — DwarfStar command-line interface

USAGE:
    ds4 [OPTIONS] [PROMPT ...]
    ds4 repl [OPTIONS]

ARGUMENTS:
    [PROMPT ...]   Run a one-shot completion. If omitted, start the REPL.

OPTIONS:";

pub const HELP_OPTIONS: &'static str = "    -m, --model <PATH>         Path to a DwarfStar GGUF model file.
        --mtp <PATH>           Path to optional MTP head weights.
    -c, --ctx <N>              Context size in tokens (default: 8192).
        --threads <N>          CPU threads (default: 1).
        --prefill-chunk <N>    Tokens per prefill chunk (default: 512).
        --temperature <F>      Sampling temperature (default: 1.0).
        --top-k <N>            Top-k sampling (default: 40).
        --top-p <F>            Top-p sampling (default: 0.9).
        --min-p <F>            Min-p sampling (default: 0.0).
        --seed <U64>           RNG seed.
        --n-predict <N>        Max new tokens (default: 256).
        --system <STR>         Optional system prompt.
        --no-display           Suppress live token display.
        --prompt-stdin         Read the prompt from stdin.
    -h, --help                 Print this help.
    -V, --version              Print version.";

pub const HELP_TAIL: &'static str = "\
ENVIRONMENT:
    DS4_LOG        Log filter (default: info). E.g. `DS4_LOG=debug`.
    DS4_SEED       RNG seed (u64). Overrides --seed.
    DS4_CTX_SIZE   Context size in tokens. Overrides --ctx.
    DS4_THREADS    Thread count for CPU backend. Overrides --threads.

EXAMPLES:
    ds4 --model model.gguf --ctx 8192 'Tell me a story.'
    echo 'Summarise this.' | ds4 --model model.gguf --prompt-stdin
    ds4 --model model.gguf                   # start the REPL
";

/// What the prompt of the REPL looks like.
pub const PROMPT: &'static str = "ds4> ";

/// The seed where none is given.
pub const DEFAULT_SEED: u64 = 0x4453_3452;

// ---- Text ----

/// An ASCII letter in lower case; any other character as it is.
pub open spec fn lower_char(c: char) -> char {
    if 'A' <= c && c <= 'Z' {
        (c as u32 + 32) as char
    } else {
        c
    }
}

/// The text with its ASCII letters in lower case.
pub open spec fn ascii_lower(s: Seq<char>) -> Seq<char> {
    s.map_values(|c: char| lower_char(c))
}

fn to_lower(c: char) -> (r: char)
    ensures
        r == lower_char(c),
{
    if 'A' <= c && c <= 'Z' {
        let b: u8 = c as u8;
        (b + 32) as char
    } else {
        c
    }
}

/// The text with its ASCII letters in lower case.
pub fn lower_ascii(s: &str) -> (r: String)
    ensures
        r@ == ascii_lower(s@),
{
    let mut out: String = String::new();
    let n: usize = s.unicode_len();
    let mut i: usize = 0;
    while i < n
        invariant
            n == s@.len(),
            i <= n,
            out@ == ascii_lower(s@.take(i as int)),
        decreases n - i,
    {
        out.push(to_lower(s.get_char(i)));
        i += 1;
        assert(out@ =~= ascii_lower(s@.take(i as int)));
    }
    assert(s@.take(i as int) =~= s@);
    out
}

/// The prompt that was read: without white space at its end.
pub fn read_prompt(read: &str) -> (r: String)
    ensures
        r@ == trimmed_end(read@),
{
    String::from_str(trim_end(read))
}

// ---- Arguments ----

/// The backend that a name in lower case asks for.
pub open spec fn backend_named(name: Seq<char>) -> Option<Ds4Backend> {
    if name == "cpu"@ {
        Some(Ds4Backend::Cpu)
    } else if name == "cuda"@ {
        Some(Ds4Backend::Cuda)
    } else if name == "arc"@ || name == "intel-arc"@ || name == "xpu"@ {
        Some(Ds4Backend::Arc)
    } else if name == "vulkan"@ || name == "vulcan"@ || name == "vk"@ {
        Some(Ds4Backend::Vulkan)
    } else if name == "rocm"@ {
        Some(Ds4Backend::Rocm)
    } else if name == "metal"@ {
        Some(Ds4Backend::Metal)
    } else {
        None
    }
}

/// The backend that a name asks for, whatever its letter case.
pub fn parse_backend(value: &str) -> (r: Result<Ds4Backend, String>)
    ensures
        match backend_named(ascii_lower(value@)) {
            Some(b) => r == Ok::<Ds4Backend, String>(b),
            None => r matches Err(m) && m@ == "unknown backend "@ + quoted(ascii_lower(value@))
                + "; expected cpu, cuda, arc, vulkan, rocm, or metal"@,
        },
{
    let lower: String = lower_ascii(value);
    match find_backend(lower.as_str()) {
        Some(b) => Ok(b),
        None => {
            let mut m: String = String::from_str("unknown backend ");
            m.append(quote(lower.as_str()).as_str());
            m.append("; expected cpu, cuda, arc, vulkan, rocm, or metal");
            Err(m)
        },
    }
}

/// The backend that a name in lower case asks for.
pub fn find_backend(name: &str) -> (r: Option<Ds4Backend>)
    ensures
        r == backend_named(name@),
{
    if str_eq(name, "cpu") {
        Some(Ds4Backend::Cpu)
    } else if str_eq(name, "cuda") {
        Some(Ds4Backend::Cuda)
    } else if str_eq(name, "arc") || str_eq(name, "intel-arc") || str_eq(name, "xpu") {
        Some(Ds4Backend::Arc)
    } else if str_eq(name, "vulkan") || str_eq(name, "vulcan") || str_eq(name, "vk") {
        Some(Ds4Backend::Vulkan)
    } else if str_eq(name, "rocm") {
        Some(Ds4Backend::Rocm)
    } else if str_eq(name, "metal") {
        Some(Ds4Backend::Metal)
    } else {
        None
    }
}

/// A size of the environment in place of one of the arguments. What is no size is passed over.
pub fn size_or(env: Option<&str>, given: usize) -> (r: usize)
    ensures
        r == match env {
            Some(text) => match parsed_size(text.spec_bytes()) {
                Some(n) => n,
                None => given,
            },
            None => given,
        },
{
    match env {
        Some(text) => {
            let bytes: &[u8] = text.as_bytes();
            assert(bytes@.subrange(0, bytes@.len() as int) =~= bytes@);
            match parse_size(bytes, 0, bytes.len()) {
                Some(n) => n,
                None => given,
            }
        },
        None => given,
    }
}

/// A seed of the environment in place of one of the arguments. What is no number is passed over.
pub fn seed_or(env: Option<&str>, given: Option<u64>) -> (r: Option<u64>)
    ensures
        r == match env {
            Some(text) => match parsed_number(text.spec_bytes()) {
                Some(n) => Some(n),
                None => given,
            },
            None => given,
        },
{
    match env {
        Some(text) => {
            let bytes: &[u8] = text.as_bytes();
            assert(bytes@.subrange(0, bytes@.len() as int) =~= bytes@);
            match parse_number(bytes, 0, bytes.len()) {
                Some(n) => Some(n),
                None => given,
            }
        },
        None => given,
    }
}

/// The seed of a run.
pub fn seed_of(seed: Option<u64>) -> (r: u64)
    ensures
        r == match seed {
            Some(n) => n,
            None => DEFAULT_SEED,
        },
{
    match seed {
        Some(n) => n,
        None => DEFAULT_SEED,
    }
}

/// The subcommand. With `OneShot` come the number of words of its own prompt.
#[derive(Debug, Clone, Copy, PartialEq, Eq, Structural)]
pub enum Mode {
    Repl,
    OneShot(usize),
}

/// The REPL runs if it is asked for, or if there is no prompt to run. `words` is the number of words
/// of the prompt that stand outside of a subcommand.
pub fn wants_repl(mode: Option<Mode>, words: usize, prompt_stdin: bool) -> (r: bool)
    ensures
        r == match mode {
            Some(Mode::Repl) => true,
            Some(Mode::OneShot(own)) => own == 0 && words == 0 && !prompt_stdin,
            None => words == 0 && !prompt_stdin,
        },
{
    match mode {
        Some(Mode::Repl) => true,
        Some(Mode::OneShot(own)) => own == 0 && words == 0 && !prompt_stdin,
        None => words == 0 && !prompt_stdin,
    }
}

/// Words with a space between each two.
pub open spec fn joined(words: Seq<String>) -> Seq<char>
    decreases words.len(),
{
    if words.len() == 0 {
        Seq::empty()
    } else if words.len() == 1 {
        words[0]@
    } else {
        joined(words.drop_last()) + " "@ + words.last()@
    }
}

/// The prompt that words make: those of the subcommand, then the others.
pub fn join_prompt(own: &Vec<String>, words: &Vec<String>) -> (r: String)
    ensures
        r@ == joined(own@ + words@),
{
    let mut out: String = String::new();
    let ghost all = own@ + words@;
    let mut i: usize = 0;
    assert(out@ =~= joined(all.take(0)));
    while i < own.len()
        invariant
            i <= own@.len(),
            all == own@ + words@,
            out@ == joined(all.take(i as int)),
        decreases own@.len() - i,
    {
        if i > 0 {
            out.append(" ");
        }
        out.append(own[i].as_str());
        proof {
            let next = all.take(i + 1);
            assert(next.drop_last() =~= all.take(i as int));
            assert(next.last() == own@[i as int]);
            assert(out@ =~= joined(next));
        }
        i += 1;
    }
    let mut j: usize = 0;
    assert(own@.len() == own.len());
    while j < words.len()
        invariant
            j <= words@.len(),
            all == own@ + words@,
            out@ == joined(all.take(own@.len() + j)),
        decreases words@.len() - j,
    {
        if own.len() > 0 || j > 0 {
            out.append(" ");
        }
        out.append(words[j].as_str());
        proof {
            let k = own@.len() + j;
            let next = all.take(k + 1);
            assert(next.drop_last() =~= all.take(k));
            assert(next.last() == words@[j as int]);
            assert(out@ =~= joined(next));
        }
        j += 1;
    }
    assert(all.take(own@.len() + j) =~= all);
    out
}

/// What a run of one prompt is given. Single-precision numbers are bit patterns.
#[derive(Debug)]
pub struct OneShotConfig {
    pub model: String,
    pub mtp: Option<String>,
    pub ctx: usize,
    pub prefill_chunk: usize,
    pub n_threads: usize,
    pub backend: Ds4Backend,
    pub temperature: u32,
    pub top_k: usize,
    pub top_p: u32,
    pub min_p: u32,
    pub seed: Option<u64>,
    pub n_predict: usize,
    pub system: Option<String>,
    pub prompt: String,
    pub display: bool,
}

/// What the REPL is given. Single-precision numbers are bit patterns.
#[derive(Debug)]
pub struct ReplConfig {
    pub model: String,
    pub mtp: Option<String>,
    pub ctx: usize,
    pub prefill_chunk: usize,
    pub n_threads: usize,
    pub backend: Ds4Backend,
    pub temperature: u32,
    pub top_k: usize,
    pub top_p: u32,
    pub min_p: u32,
    pub seed: Option<u64>,
    pub n_predict: usize,
    pub system: Option<String>,
}

/// The text, if there is one.
pub open spec fn text_of(t: Option<String>) -> Option<Seq<char>> {
    match t {
        Some(s) => Some(s@),
        None => None,
    }
}

fn copy_text(t: &Option<String>) -> (r: Option<String>)
    ensures
        text_of(r) == text_of(*t),
{
    match t {
        Some(s) => Some(String::from_str(s.as_str())),
        None => None,
    }
}

impl OneShotConfig {
    /// What the engine is asked for.
    pub fn engine_options(&self) -> (o: Ds4EngineOptions)
        ensures
            o@ == (OptionsView {
                model_path: self.model@,
                mtp_path: text_of(self.mtp),
                backend: self.backend,
                n_threads: self.n_threads,
                prefill_chunk: self.prefill_chunk,
                ..default_options()
            }),
    {
        let mut o: Ds4EngineOptions = Ds4EngineOptions::default();
        o.model_path = String::from_str(self.model.as_str());
        o.mtp_path = copy_text(&self.mtp);
        o.backend = self.backend;
        o.n_threads = self.n_threads;
        o.prefill_chunk = self.prefill_chunk;
        o
    }

    /// The prompt of the run: the one of the arguments, or else the one that was read. `read` is
    /// looked at only if the arguments have none.
    pub fn prompt_of(&self, read: &str) -> (r: Result<String, &'static str>)
        ensures
            ({
                let prompt = if self.prompt@.len() > 0 {
                    self.prompt@
                } else {
                    trimmed_end(read@)
                };
                if prompt.len() == 0 {
                    r matches Err(m) && m@ == "empty prompt; nothing to do"@
                } else {
                    r matches Ok(p) && p@ == prompt
                }
            }),
    {
        let prompt: String = if self.prompt.as_str().unicode_len() > 0 {
            String::from_str(self.prompt.as_str())
        } else {
            read_prompt(read)
        };
        if prompt.as_str().unicode_len() == 0 {
            return Err("empty prompt; nothing to do");
        }
        Ok(prompt)
    }
}

impl ReplConfig {
    /// The same for a run of one prompt, which is still to come; what it says is shown.
    pub fn to_one_shot(&self) -> (c: OneShotConfig)
        ensures
            c.model@ == self.model@,
            text_of(c.mtp) == text_of(self.mtp),
            c.ctx == self.ctx,
            c.prefill_chunk == self.prefill_chunk,
            c.n_threads == self.n_threads,
            c.backend == self.backend,
            c.temperature == self.temperature,
            c.top_k == self.top_k,
            c.top_p == self.top_p,
            c.min_p == self.min_p,
            c.seed == self.seed,
            c.n_predict == self.n_predict,
            text_of(c.system) == text_of(self.system),
            c.prompt@.len() == 0,
            c.display,
    {
        OneShotConfig {
            model: String::from_str(self.model.as_str()),
            mtp: copy_text(&self.mtp),
            ctx: self.ctx,
            prefill_chunk: self.prefill_chunk,
            n_threads: self.n_threads,
            backend: self.backend,
            temperature: self.temperature,
            top_k: self.top_k,
            top_p: self.top_p,
            min_p: self.min_p,
            seed: self.seed,
            n_predict: self.n_predict,
            system: copy_text(&self.system),
            prompt: String::new(),
            display: true,
        }
    }
}

// ---- Decoding ----

/// The decoding of a reply: how many more tokens may come, and the token that ends it.
#[derive(Debug, Clone, Copy, PartialEq, Eq, Structural)]
pub struct Decoding {
    pub left: usize,
    pub eos: u32,
}

impl Decoding {
    /// The decoding of a reply of at most `n_predict` tokens, which ends with `eos`.
    pub fn new(n_predict: usize, eos: u32) -> (d: Self)
        ensures
            d == (Decoding { left: n_predict, eos }),
    {
        Decoding { left: n_predict, eos }
    }

    /// A token is to be sampled: some may still come, and the context has room.
    pub open spec fn goes_on(self, pos: usize, ctx: usize) -> bool {
        self.left > 0 && pos < ctx
    }

    /// `true` if a token is to be sampled. It counts against those that may still come.
    pub fn wants_token(&mut self, session: &Ds4Session) -> (r: bool)
        ensures
            r == old(self).goes_on(session@.position, session@.ctx_size),
            *final(self) == if r {
                Decoding { left: (old(self).left - 1) as usize, eos: old(self).eos }
            } else {
                *old(self)
            },
    {
        if self.left > 0 && session.pos() < session.ctx() {
            self.left = self.left - 1;
            true
        } else {
            false
        }
    }

    /// `true` if the token belongs to the reply; the end of the reply does not.
    pub fn takes(&self, token: u32) -> (r: bool)
        ensures
            r == (token != self.eos),
    {
        token != self.eos
    }
}

/// The tokens of the reply among those that were sampled, in a session at `pos`: a token is taken
/// as long as one is to be sampled and it does not end the reply.
pub open spec fn reply(d: Decoding, sampled: Seq<u32>, pos: usize, ctx: usize) -> Seq<u32>
    decreases sampled.len(),
{
    if !d.goes_on(pos, ctx) || sampled.len() == 0 || sampled[0] == d.eos {
        Seq::empty()
    } else {
        seq![sampled[0]] + reply(
            Decoding { left: (d.left - 1) as usize, eos: d.eos },
            sampled.skip(1),
            (pos + 1) as usize,
            ctx,
        )
    }
}

/// A reply has at most as many tokens as were asked for and as the context has room for, it is what
/// was sampled up to its end, and the end is not in it.
pub proof fn law_reply(d: Decoding, sampled: Seq<u32>, pos: usize, ctx: usize)
    requires
        pos <= ctx,
    ensures
        reply(d, sampled, pos, ctx).len() <= d.left,
        pos + reply(d, sampled, pos, ctx).len() <= ctx,
        reply(d, sampled, pos, ctx).is_prefix_of(sampled),
        !reply(d, sampled, pos, ctx).contains(d.eos),
        ({
            let n = reply(d, sampled, pos, ctx).len();
            n < d.left && pos + n < ctx && n < sampled.len() ==> sampled[n as int] == d.eos
        }),
    decreases sampled.len(),
{
    if d.goes_on(pos, ctx) && sampled.len() > 0 && sampled[0] != d.eos {
        let rest = sampled.skip(1);
        let after = Decoding { left: (d.left - 1) as usize, eos: d.eos };
        law_reply(after, rest, (pos + 1) as usize, ctx);
        let tail = reply(after, rest, (pos + 1) as usize, ctx);
        let all = reply(d, sampled, pos, ctx);
        assert(all == seq![sampled[0]] + tail);
        assert(all.is_prefix_of(sampled)) by {
            assert forall|i: int| 0 <= i < all.len() implies all[i] == sampled[i] by {
                if i > 0 {
                    assert(all[i] == tail[i - 1]);
                    assert(tail[i - 1] == rest.subrange(0, tail.len() as int)[i - 1]);
                }
            }
            assert(all =~= sampled.subrange(0, all.len() as int));
        }
        assert(!all.contains(d.eos)) by {
            if all.contains(d.eos) {
                let i = choose|i: int| 0 <= i < all.len() && all[i] == d.eos;
                assert(i > 0);
                assert(tail[i - 1] == d.eos);
                assert(tail.contains(d.eos));
            }
        }
    }
}

// ---- The REPL ----

/// What a command of the REPL asks for.
#[derive(Debug, Clone, Copy, PartialEq, Eq, Structural)]
pub enum ReplCommand {
    Exit,
    Clear,
    Reset,
    Help,
}

/// The command that a line is.
pub open spec fn command_of(line: Seq<char>) -> Option<ReplCommand> {
    if line == "/exit"@ || line == "/quit"@ || line == "/bye"@ {
        Some(ReplCommand::Exit)
    } else if line == "/clear"@ {
        Some(ReplCommand::Clear)
    } else if line == "/reset"@ {
        Some(ReplCommand::Reset)
    } else if line == "/help"@ || line == "/?"@ {
        Some(ReplCommand::Help)
    } else {
        None
    }
}

/// The command that a line is.
pub fn find_command(line: &str) -> (r: Option<ReplCommand>)
    ensures
        r == command_of(line@),
{
    if str_eq(line, "/exit") || str_eq(line, "/quit") || str_eq(line, "/bye") {
        Some(ReplCommand::Exit)
    } else if str_eq(line, "/clear") {
        Some(ReplCommand::Clear)
    } else if str_eq(line, "/reset") {
        Some(ReplCommand::Reset)
    } else if str_eq(line, "/help") || str_eq(line, "/?") {
        Some(ReplCommand::Help)
    } else {
        None
    }
}

/// `true` if the line is a command.
pub fn is_repl_command(line: &str) -> (r: bool)
    ensures
        r == (command_of(line@) is Some),
{
    find_command(line).is_some()
}

/// What a line of the REPL is.
#[derive(Debug)]
pub enum ReplLine {
    Blank,
    Command(ReplCommand),
    Prompt(String),
}

/// What a line of the REPL is, white space at its ends aside.
pub fn read_line(line: &str) -> (r: ReplLine)
    ensures
        is_line(trimmed(line@), r),
{
    sort_line(String::from_str(trim(line)))
}

/// What a line without white space at its ends is.
pub open spec fn is_line(text: Seq<char>, r: ReplLine) -> bool {
    if text.len() == 0 {
        r is Blank
    } else {
        match command_of(text) {
            Some(c) => r == ReplLine::Command(c),
            None => r matches ReplLine::Prompt(p) && p@ == text,
        }
    }
}

/// What a line without white space at its ends is.
pub fn sort_line(text: String) -> (r: ReplLine)
    ensures
        is_line(text@, r),
{
    if text.as_str().unicode_len() == 0 {
        return ReplLine::Blank;
    }
    match find_command(text.as_str()) {
        Some(c) => ReplLine::Command(c),
        None => ReplLine::Prompt(text),
    }
}

/// The commands of the REPL.
pub const REPL_HELP: &'static str = "REPL commands:
  /exit, /quit, /bye    Exit the REPL.
  /clear                Reset the session (drops KV).
  /reset                Rewind the session to position 0.
  /help, /?             Show this help.
Enter any other text to send it as a prompt.";

/// Carries out a command, and gives what is to be said; nothing where the REPL ends.
pub fn handle_repl_command(command: ReplCommand, session: &mut Ds4Session) -> (r: Option<&'static str>)
    requires
        old(session)@.wf(),
    ensures
        final(session)@.wf(),
        match command {
            ReplCommand::Exit => r is None && final(session)@ == old(session)@,
            ReplCommand::Clear => (r matches Some(m) && m@ == "session reset."@) && final(session)@
                == old(session)@.invalidated(),
            ReplCommand::Reset => (r matches Some(m) && m@ == "session rewound to position 0."@)
                && final(session)@ == old(session)@.rewound(0),
            ReplCommand::Help => (r matches Some(m) && m@ == REPL_HELP@) && final(session)@ == old(
                session,
            )@,
        },
{
    match command {
        ReplCommand::Exit => None,
        ReplCommand::Clear => {
            session.invalidate();
            Some("session reset.")
        },
        ReplCommand::Reset => {
            session.rewind(0);
            Some("session rewound to position 0.")
        },
        ReplCommand::Help => Some(REPL_HELP),
    }
}

// ---- Failures ----

/// What is said where the engine has no model to run.
pub fn engine_missing_model_message() -> (r: &'static str)
    ensures
        r@ == "the selected model/backend has no loaded runtime model"@,
{
    "the selected model/backend has no loaded runtime model"
}

/// `true` if the engine has no model to run.
pub fn engine_pending(engine: &Ds4Engine) -> (r: bool)
    ensures
        r == !engine.model_loaded,
{
    !engine.model_loaded
}

/// `true` if the error is that something is not there to run.
pub fn is_engine_pending(e: &Ds4Error) -> (r: bool)
    ensures
        r == (e.kind == Ds4ErrorKind::NotImplemented),
{
    e.kind == Ds4ErrorKind::NotImplemented
}

/// How a run ended.
#[derive(Debug)]
pub enum Outcome {
    Success,
    /// The arguments name no model.
    NoModel,
    /// It failed; with the error of the engine, if one is at the bottom of it.
    Failed(Option<Ds4Error>),
}

/// The exit code of the program.
pub fn exit_code(o: &Outcome) -> (r: u8)
    ensures
        r == match *o {
            Outcome::Success => 0,
            Outcome::NoModel => 2,
            Outcome::Failed(Some(e)) => if e.kind == Ds4ErrorKind::NotImplemented {
                3
            } else {
                1
            },
            Outcome::Failed(None) => 1int,
        },
{
    match o {
        Outcome::Success => 0,
        Outcome::NoModel => 2,
        Outcome::Failed(Some(e)) => if is_engine_pending(e) {
            3
        } else {
            1
        },
        Outcome::Failed(None) => 1,
    }
}

/// What a kind of error is called.
pub open spec fn kind_text(kind: Ds4ErrorKind) -> Seq<char> {
    match kind {
        Ds4ErrorKind::InvalidArgument => "InvalidArgument"@,
        Ds4ErrorKind::NotImplemented => "NotImplemented"@,
        Ds4ErrorKind::Io => "Io"@,
        Ds4ErrorKind::Backend => "Backend"@,
        Ds4ErrorKind::Model => "Model"@,
        Ds4ErrorKind::Tokenizer => "Tokenizer"@,
        Ds4ErrorKind::OutOfMemory => "OutOfMemory"@,
        Ds4ErrorKind::Other => "Other"@,
    }
}

fn kind_name(kind: Ds4ErrorKind) -> (r: &'static str)
    ensures
        r@ == kind_text(kind),
{
    match kind {
        Ds4ErrorKind::InvalidArgument => "InvalidArgument",
        Ds4ErrorKind::NotImplemented => "NotImplemented",
        Ds4ErrorKind::Io => "Io",
        Ds4ErrorKind::Backend => "Backend",
        Ds4ErrorKind::Model => "Model",
        Ds4ErrorKind::Tokenizer => "Tokenizer",
        Ds4ErrorKind::OutOfMemory => "OutOfMemory",
        Ds4ErrorKind::Other => "Other",
    }
}

/// What is said of a step that failed.
pub fn failure_text(what: &str, e: &Ds4Error) -> (r: String)
    ensures
        r@ == what@ + ": "@ + kind_text(e.kind) + ": "@ + e.message@,
{
    let mut m: String = String::from_str(what);
    m.append(": ");
    m.append(kind_name(e.kind));
    m.append(": ");
    m.append(e.message.as_str());
    m
}

/// What is said of an engine that did not open.
pub fn open_failure_text(model: &str, e: &Ds4Error) -> (r: String)
    ensures
        r@ == "failed to open engine at "@ + quoted(model@) + ": "@ + kind_text(e.kind) + ": "@
            + e.message@,
{
    let mut what: String = String::from_str("failed to open engine at ");
    what.append(quote(model).as_str());
    failure_text(what.as_str(), e)
}

/// The name of a backend asks for that backend.
pub proof fn law_backend_by_name(b: Ds4Backend)
    ensures
        backend_named(backend_name(b)) == Some(b),
{
    reveal_strlit("cpu");
    reveal_strlit("cuda");
    reveal_strlit("arc");
    reveal_strlit("intel-arc");
    reveal_strlit("xpu");
    reveal_strlit("vulkan");
    reveal_strlit("vulcan");
    reveal_strlit("vk");
    reveal_strlit("rocm");
    reveal_strlit("metal");
    let n = backend_name(b);
    assert(n.len() == 3 || n.len() == 4 || n.len() == 5 || n.len() == 6);
    assert("cpu"@[0] != "arc"@[0]);
    assert("cuda"@[0] != "rocm"@[0]);
    assert("arc"@[0] != "xpu"@[0]);
    assert("vulkan"@[3] != "vulcan"@[3]);
}

/// One word is its own prompt, and a further word follows after one space.
pub proof fn law_joined(words: Seq<String>, next: String)
    ensures
        joined(seq![next]) == next@,
        words.len() > 0 ==> joined(words.push(next)) == joined(words) + " "@ + next@,
        joined(Seq::<String>::empty()) == Seq::<char>::empty(),
{
    assert(words.push(next).drop_last() =~= words);
}

} // verus!
