//! Inference session: the live tokens, their logits, and how they follow a prompt.
//!
//! Evaluating tokens with a model is the caller's. A session says which tokens are to be
//! evaluated, and takes the logits or the failure back; a failure leaves it as it was.

use vstd::prelude::*;
use vstd::string::StringExecFns;

use crate::engine::Ds4Engine;
use crate::kv::{
    empty_cache, law_rewind_all_shape, law_rewind_keeps_earlier, zeros, CacheView, KvCache, DEFAULT_COMPRESSED_DIM,
    DEFAULT_HEAD_DIM, DEFAULT_INDEXER_DIM,
};
use crate::mtp::{fresh_mtp, Ds4Mtp, Ds4MtpConfig, MtpView};
use crate::sampler;
use crate::sampler::{argmax_of, SampleStart};
use crate::slices::{copy_words, words_eq};
use crate::text::{dec, push_dec};
use crate::types::{
    Ds4DistributedRole, Ds4Error, Ds4ErrorKind, Ds4Result, Ds4RewriteStatus,
};

verus! {

/// Number of prompt tokens evaluated at a time where nothing else is asked for.
pub const DEFAULT_PREFILL_CHUNK: usize = 512;

/// How the live tokens relate to the last prompt.
#[derive(Debug, Clone, Copy, PartialEq, Eq, Structural)]
pub enum SyncResult {
    /// There are none.
    Empty,
    /// They are the prompt.
    MatchAll,
    /// The first `n` of them agree with the prompt.
    Common(usize),
    /// They differ from the prompt from here on.
    Diverges(usize),
}

/// A session.
#[derive(Debug)]
pub struct Ds4Session {
    ctx_size: usize,
    prefill_chunk: usize,
    role: Option<Ds4DistributedRole>,
    tokens: Vec<u32>,
    position: usize,
    logits: Vec<u32>,
    cache: KvCache,
    mtp: Ds4Mtp,
    last_sync: SyncResult,
}

/// What a session holds.
pub struct SessionView {
    pub ctx_size: usize,
    pub prefill_chunk: usize,
    pub role: Option<Ds4DistributedRole>,
    pub tokens: Seq<u32>,
    pub position: usize,
    pub logits: Seq<u32>,
    pub cache: CacheView,
    pub mtp: MtpView,
    pub last_sync: SyncResult,
}

impl View for Ds4Session {
    type V = SessionView;

    closed spec fn view(&self) -> SessionView {
        SessionView {
            ctx_size: self.ctx_size,
            prefill_chunk: self.prefill_chunk,
            role: self.role,
            tokens: self.tokens@,
            position: self.position,
            logits: self.logits@,
            cache: self.cache@,
            mtp: self.mtp@,
            last_sync: self.last_sync,
        }
    }
}

impl SessionView {
    /// The position is the number of live tokens, and the cache belongs to the context.
    pub open spec fn wf(self) -> bool {
        &&& self.ctx_size > 0
        &&& self.prefill_chunk > 0
        &&& self.position == self.tokens.len()
        &&& self.logits.len() > 0
        &&& self.cache.wf()
        &&& self.cache.ctx_size == self.ctx_size
    }

    /// The session with exactly the prompt as its tokens.
    pub open spec fn rebuilt(self, prompt: Seq<u32>) -> SessionView {
        SessionView {
            tokens: prompt,
            position: prompt.len() as usize,
            cache: self.cache.cleared(),
            mtp: self.mtp.cleared(),
            last_sync: SyncResult::MatchAll,
            ..self
        }
    }

    /// The live tokens were evaluated up to `n`, and the prompt begins with those `n`.
    pub open spec fn continues(self, prompt: Seq<u32>) -> bool {
        self.last_sync matches SyncResult::Common(n) && n <= self.tokens.len()
            && self.tokens.take(n as int).is_prefix_of(prompt)
    }

    /// The session with the prompt as its tokens, where the prompt continues what was evaluated:
    /// the cache is kept.
    pub open spec fn continued(self, prompt: Seq<u32>) -> SessionView {
        SessionView {
            tokens: prompt,
            position: prompt.len() as usize,
            last_sync: SyncResult::MatchAll,
            ..self
        }
    }

    /// The session after it was brought in line with a prompt, its logits aside: it stays as it is
    /// where the live tokens are the prompt, it is continued where the prompt begins with what
    /// was evaluated, and otherwise it is rebuilt.
    pub open spec fn synced(self, prompt: Seq<u32>) -> SessionView {
        if self.last_sync == SyncResult::MatchAll && self.tokens == prompt {
            self
        } else if self.continues(prompt) {
            self.continued(prompt)
        } else {
            self.rebuilt(prompt)
        }
    }

    /// The session after a token was evaluated.
    pub open spec fn evaluated(self, token: u32, logits: Seq<u32>) -> SessionView {
        let pos = (self.position + 1) as usize;
        SessionView {
            tokens: self.tokens.push(token),
            position: pos,
            logits,
            cache: self.cache.rewound_all(pos),
            mtp: self.mtp.cleared(),
            last_sync: SyncResult::Common(pos),
            ..self
        }
    }

    /// The session with only its first `pos` tokens.
    pub open spec fn rewound(self, pos: usize) -> SessionView {
        SessionView {
            tokens: self.tokens.take(pos as int),
            position: pos,
            cache: self.cache.rewound_all(pos),
            last_sync: SyncResult::MatchAll,
            ..self
        }
    }

    /// The session without tokens.
    pub open spec fn invalidated(self) -> SessionView {
        SessionView {
            tokens: Seq::empty(),
            position: 0,
            cache: self.cache.cleared(),
            mtp: self.mtp.cleared(),
            last_sync: SyncResult::Empty,
            ..self
        }
    }

    /// There are `common` live tokens and as many in the prompt, and these agree.
    pub open spec fn agrees(self, prompt: Seq<u32>, common: usize) -> bool {
        &&& common <= self.tokens.len()
        &&& common <= prompt.len()
        &&& self.tokens.take(common as int) == prompt.take(common as int)
    }

    /// The session after a rewrite: the live tokens are the prompt, and the cache is cleared behind
    /// it.
    pub open spec fn rewritten(self, prompt: Seq<u32>) -> SessionView {
        SessionView {
            tokens: prompt,
            position: prompt.len() as usize,
            cache: self.cache.rewound_all(prompt.len() as usize),
            last_sync: SyncResult::MatchAll,
            ..self
        }
    }
}

/// The error for a prompt that does not fit.
pub open spec fn prompt_too_long(e: Ds4Error, len: nat, ctx: nat) -> bool {
    e.is(
        Ds4ErrorKind::InvalidArgument,
        "prompt length "@ + dec(len) + " exceeds context window "@ + dec(ctx),
    )
}

/// The error for a context that is full.
pub open spec fn exhausted(e: Ds4Error) -> bool {
    e.is(Ds4ErrorKind::OutOfMemory, "context window exhausted"@)
}

fn exhausted_error() -> (e: Ds4Error)
    ensures
        exhausted(e),
{
    Ds4Error::new(Ds4ErrorKind::OutOfMemory, String::from_str("context window exhausted"))
}

/// What a speculative run adds: the tokens, and whether it ended because the context was full.
pub struct Speculation {
    pub pushed: Seq<u32>,
    pub full: bool,
}

/// What a speculative run of at most `n` tokens adds from its token `i` on: `first`, then the
/// argmax again and again, until the end token, or until there is no more room.
pub open spec fn speculated(i: nat, n: nat, room: nat, first: u32, best: u32, eos: u32) -> Speculation
    decreases n - i,
{
    if i >= n {
        Speculation { pushed: Seq::empty(), full: false }
    } else if i >= room {
        Speculation { pushed: Seq::empty(), full: true }
    } else {
        let t = if i == 0 {
            first
        } else {
            best
        };
        if t == eos {
            Speculation { pushed: seq![t], full: false }
        } else {
            let rest = speculated(i + 1, n, room, first, best, eos);
            Speculation { pushed: seq![t] + rest.pushed, full: rest.full }
        }
    }
}

/// The accepted tokens after a run: each that was added, but for the end token, in its place.
pub open spec fn accepted_after(accepted: Seq<u32>, pushed: Seq<u32>, eos: u32) -> Seq<u32> {
    Seq::new(
        accepted.len(),
        |i: int|
            if i < pushed.len() && pushed[i] != eos {
                pushed[i]
            } else {
                accepted[i]
            },
    )
}

/// The first `n` tokens of both are the same, and `n` cannot be larger.
pub open spec fn is_common_prefix(tokens: Seq<u32>, prompt: Seq<u32>, n: usize) -> bool {
    &&& n <= tokens.len()
    &&& n <= prompt.len()
    &&& forall|i: int| 0 <= i < n ==> #[trigger] tokens[i] == prompt[i]
    &&& n < tokens.len() && n < prompt.len() ==> tokens[n as int] != prompt[n as int]
}

// ---- Laws ----

/// After a sync the live tokens are the prompt, whatever the session held before.
pub proof fn law_sync_gives_prompt(s: SessionView, prompt: Seq<u32>)
    requires
        s.wf(),
        prompt.len() <= s.ctx_size,
    ensures
        s.synced(prompt).tokens == prompt,
        s.synced(prompt).position == prompt.len(),
        s.synced(prompt).last_sync == SyncResult::MatchAll,
        s.synced(prompt).wf(),
{
}

/// Syncing a second time with the same prompt changes nothing.
pub proof fn law_sync_idempotent(s: SessionView, prompt: Seq<u32>)
    requires
        s.wf(),
        prompt.len() <= s.ctx_size,
    ensures
        s.synced(prompt).synced(prompt) == s.synced(prompt),
{
    law_sync_gives_prompt(s, prompt);
}

/// Going back to the position before a token was evaluated gives the tokens back.
pub proof fn law_rewind_undoes_eval(s: SessionView, token: u32, logits: Seq<u32>)
    requires
        s.wf(),
        s.position < s.ctx_size,
    ensures
        s.evaluated(token, logits).rewound(s.position).tokens == s.tokens,
        s.evaluated(token, logits).rewound(s.position).position == s.position,
{
    assert(s.tokens.push(token).take(s.position as int) =~= s.tokens);
}

/// After a rewrite the live tokens are the prompt: those that were trusted, and then the rest of
/// the prompt.
pub proof fn law_rewrite_gives_prompt(s: SessionView, prompt: Seq<u32>, common: usize)
    requires
        s.wf(),
        s.agrees(prompt, common),
    ensures
        s.rewritten(prompt).tokens == prompt,
        s.rewritten(prompt).tokens == s.tokens.take(common as int) + prompt.skip(common as int),
{
    assert(prompt.take(common as int) + prompt.skip(common as int) =~= prompt);
}

/// The common prefix can be trusted in a rewrite, and no longer one can.
pub proof fn law_common_prefix_agrees(s: SessionView, prompt: Seq<u32>, n: usize, longer: usize)
    requires
        is_common_prefix(s.tokens, prompt, n),
    ensures
        s.agrees(prompt, n),
        s.agrees(prompt, longer) ==> longer <= n,
{
    assert(s.tokens.take(n as int) =~= prompt.take(n as int));
    if s.agrees(prompt, longer) && longer > n {
        assert(s.tokens.take(longer as int)[n as int] == prompt.take(longer as int)[n as int]);
    }
}

/// A prompt of one more token than was evaluated continues the session: its last token is added,
/// and the cache is kept.
pub proof fn law_continue_after_eval(s: SessionView, token: u32, logits: Seq<u32>, next: u32)
    requires
        s.wf(),
        s.position < s.ctx_size,
    ensures
        ({
            let e = s.evaluated(token, logits);
            let prompt = e.tokens.push(next);
            e.continues(prompt) && e.synced(prompt).tokens == prompt && e.synced(prompt).cache
                == e.cache
        }),
{
    let e = s.evaluated(token, logits);
    let prompt = e.tokens.push(next);
    let n = e.position as int;
    assert(e.tokens.take(n) =~= e.tokens);
    assert(e.tokens =~= prompt.subrange(0, e.tokens.len() as int));
}

/// A prompt that differs from what was evaluated throws all of it away: the cache holds nothing any
/// more, and there are no drafts. So does any prompt after the tokens were dropped.
pub proof fn law_sync_forgets(s: SessionView, prompt: Seq<u32>, at: int)
    requires
        s.wf(),
        s.last_sync == SyncResult::Common(s.position),
        0 <= at < s.tokens.len(),
        at >= prompt.len() || s.tokens[at] != prompt[at],
    ensures
        s.synced(prompt).cache == s.cache.cleared(),
        s.synced(prompt).mtp.drafts.len() == 0,
        s.synced(prompt).tokens == prompt,
        s.invalidated().tokens.len() == 0,
        s.invalidated().position == 0,
        s.invalidated().cache == s.cache.cleared(),
        s.invalidated().synced(prompt).cache == s.cache.cleared(),
        s.invalidated().synced(prompt).tokens == prompt,
{
    let n = s.position as int;
    assert(s.tokens.take(n) =~= s.tokens);
    if s.tokens.is_prefix_of(prompt) {
        assert(s.tokens =~= prompt.subrange(0, n));
        assert(s.tokens[at] == prompt[at]);
    }
}

/// Evaluating a token puts it behind the live tokens and takes the logits that came; what the cache
/// holds of earlier positions stays.
pub proof fn law_eval_appends(s: SessionView, token: u32, logits: Seq<u32>, l: int, i: int)
    requires
        s.wf(),
        s.position < s.ctx_size,
        0 <= l < s.cache.n_layers,
        0 <= i < s.position * s.cache.head_dim,
    ensures
        s.evaluated(token, logits).tokens.len() == s.tokens.len() + 1,
        s.tokens.is_prefix_of(s.evaluated(token, logits).tokens),
        s.evaluated(token, logits).tokens.last() == token,
        s.evaluated(token, logits).logits == logits,
        s.evaluated(token, logits).cache.raw[l][i] == s.cache.raw[l][i],
{
    let e = s.evaluated(token, logits);
    assert(s.tokens =~= e.tokens.subrange(0, s.tokens.len() as int));
    assert(s.position * s.cache.head_dim <= (s.position + 1) * s.cache.head_dim)
        by (nonlinear_arith);
    law_rewind_keeps_earlier(s.cache, e.position, l, i);
}

/// Going back keeps the first tokens and what the cache holds of them, and clears the rest.
pub proof fn law_rewind_keeps_first(s: SessionView, pos: usize, l: int, i: int)
    requires
        s.wf(),
        pos <= s.position <= s.ctx_size,
        0 <= l < s.cache.n_layers,
        0 <= i < s.ctx_size * s.cache.head_dim,
    ensures
        s.rewound(pos).tokens.len() == pos,
        s.rewound(pos).tokens.is_prefix_of(s.tokens),
        s.rewound(pos).cache.raw[l][i] == if i < pos * s.cache.head_dim {
            s.cache.raw[l][i]
        } else {
            0
        },
        s.rewound(pos).logits == s.logits,
{
    assert(s.tokens.take(pos as int) =~= s.tokens.subrange(0, pos as int));
    law_rewind_keeps_earlier(s.cache, pos, l, i);
}

/// A speculative run pushes its first token and then the best one, as many as were asked for and as
/// there is room for; it ends early only with the end token, and is full exactly where room was
/// what it ran out of.
pub proof fn law_speculation(n: nat, room: nat, first: u32, best: u32, eos: u32)
    ensures
        ({
            let s = speculated(0, n, room, first, best, eos);
            &&& s.pushed.len() <= n && s.pushed.len() <= room
            &&& s.pushed.len() > 0 ==> s.pushed[0] == first
            &&& forall|j: int| 0 < j < s.pushed.len() ==> #[trigger] s.pushed[j] == best
            &&& forall|j: int| 0 <= j < s.pushed.len() - 1 ==> #[trigger] s.pushed[j] != eos
            &&& s.pushed.len() == n || s.pushed.len() == room || (s.pushed.len() > 0
                && s.pushed.last() == eos)
            &&& s.full <==> s.pushed.len() == room && room < n && (s.pushed.len() > 0
                ==> s.pushed.last() != eos)
        }),
{
    lemma_speculation(0, n, room, first, best, eos);
}

proof fn lemma_speculation(i: nat, n: nat, room: nat, first: u32, best: u32, eos: u32)
    requires
        i <= n,
        i <= room,
    ensures
        ({
            let s = speculated(i, n, room, first, best, eos);
            &&& i + s.pushed.len() <= n && i + s.pushed.len() <= room
            &&& s.pushed.len() > 0 ==> s.pushed[0] == if i == 0 {
                first
            } else {
                best
            }
            &&& forall|j: int| 0 < j < s.pushed.len() ==> #[trigger] s.pushed[j] == best
            &&& forall|j: int| 0 <= j < s.pushed.len() - 1 ==> #[trigger] s.pushed[j] != eos
            &&& i + s.pushed.len() == n || i + s.pushed.len() == room || (s.pushed.len() > 0
                && s.pushed.last() == eos)
            &&& s.full <==> i + s.pushed.len() == room && room < n && (s.pushed.len() > 0
                ==> s.pushed.last() != eos)
        }),
    decreases n - i,
{
    if i < n && i < room {
        lemma_speculation(i + 1, n, room, first, best, eos);
        let rest = speculated(i + 1, n, room, first, best, eos);
        let s = speculated(i, n, room, first, best, eos);
        let t = if i == 0 {
            first
        } else {
            best
        };
        if t != eos {
            assert(s.pushed == seq![t] + rest.pushed);
            assert forall|j: int| 0 < j < s.pushed.len() implies #[trigger] s.pushed[j] == best by {
                assert(s.pushed[j] == rest.pushed[j - 1]);
            }
            assert forall|j: int| 0 <= j < s.pushed.len() - 1 implies #[trigger] s.pushed[j]
                != eos by {
                if j > 0 {
                    assert(s.pushed[j] == rest.pushed[j - 1]);
                }
            }
            if rest.pushed.len() > 0 {
                assert(s.pushed.last() == rest.pushed.last());
            }
        }
    }
}

// ---- Operations ----

fn starts_with(prompt: &[u32], tokens: &Vec<u32>, n: usize) -> (r: bool)
    requires
        n <= tokens@.len(),
    ensures
        r == tokens@.take(n as int).is_prefix_of(prompt@),
{
    if n > prompt.len() {
        return false;
    }
    let mut i: usize = 0;
    while i < n
        invariant
            i <= n <= tokens@.len(),
            n <= prompt@.len(),
            forall|j: int| 0 <= j < i ==> tokens@[j] == prompt@[j],
        decreases n - i,
    {
        if tokens[i] != prompt[i] {
            assert(tokens@.take(n as int)[i as int] != prompt@.subrange(0, n as int)[i as int]);
            return false;
        }
        i += 1;
    }
    assert(tokens@.take(n as int) =~= prompt@.subrange(0, n as int));
    true
}

fn push_from(out: &mut Vec<u32>, src: &[u32], from: usize)
    requires
        from <= src@.len(),
    ensures
        final(out)@ == old(out)@ + src@.skip(from as int),
{
    let ghost before = out@;
    let mut i: usize = from;
    while i < src.len()
        invariant
            from <= i <= src@.len(),
            out@ == before + src@.subrange(from as int, i as int),
        decreases src@.len() - i,
    {
        out.push(src[i]);
        i += 1;
        assert(out@ =~= before + src@.subrange(from as int, i as int));
    }
    assert(src@.subrange(from as int, i as int) =~= src@.skip(from as int));
}

fn copy_of(v: &Vec<u32>) -> (r: Vec<u32>)
    ensures
        r@ == v@,
{
    let r: Vec<u32> = copy_words(v.as_slice(), 0, v.len());
    assert(r@ =~= v@);
    r
}

impl Ds4Session {
    /// A session without tokens.
    pub fn create(engine: &Ds4Engine, ctx_size: usize) -> (r: Ds4Result<Self>)
        requires
            ctx_size * DEFAULT_HEAD_DIM <= usize::MAX,
        ensures
            match r {
                Ok(s) => {
                    &&& ctx_size > 0
                    &&& s@.wf()
                    &&& s@ == (SessionView {
                        ctx_size,
                        prefill_chunk: if engine.opts.prefill_chunk > 0 {
                            engine.opts.prefill_chunk
                        } else {
                            1
                        },
                        role: match engine.opts.distributed {
                            Some(d) => Some(d.role),
                            None => None,
                        },
                        tokens: Seq::empty(),
                        position: 0,
                        logits: zeros(
                            if engine.n_vocab > 0 {
                                engine.n_vocab as int
                            } else {
                                1
                            },
                        ),
                        cache: empty_cache(
                            ctx_size,
                            if engine.n_layers > 0 {
                                engine.n_layers
                            } else {
                                1
                            },
                            DEFAULT_HEAD_DIM,
                            DEFAULT_COMPRESSED_DIM,
                            DEFAULT_INDEXER_DIM,
                        ),
                        mtp: fresh_mtp(
                            Ds4MtpConfig { draft_tokens: engine.mtp_draft_tokens, margin: 0 },
                        ),
                        last_sync: SyncResult::Empty,
                    })
                },
                Err(e) => ctx_size == 0 && e.is(
                    Ds4ErrorKind::InvalidArgument,
                    "ctx_size must be > 0"@,
                ),
            },
    {
        if ctx_size == 0 {
            return Err(
                Ds4Error::new(
                    Ds4ErrorKind::InvalidArgument,
                    String::from_str("ctx_size must be > 0"),
                ),
            );
        }
        let n_layers: usize = if engine.layer_count() > 0 {
            engine.layer_count()
        } else {
            1
        };
        let cache = KvCache::new(ctx_size, n_layers)?;
        let mtp = Ds4Mtp::with_config(
            Ds4MtpConfig { draft_tokens: engine.mtp_draft_tokens(), margin: 0 },
        );
        let n_vocab: usize = if engine.vocab_size() > 0 {
            engine.vocab_size()
        } else {
            1
        };
        let mut logits: Vec<u32> = Vec::new();
        let mut i: usize = 0;
        while i < n_vocab
            invariant
                i <= n_vocab,
                logits@ == zeros(i as int),
            decreases n_vocab - i,
        {
            logits.push(0);
            i += 1;
            assert(logits@ =~= zeros(i as int));
        }
        Ok(
            Ds4Session {
                ctx_size,
                prefill_chunk: if engine.options().prefill_chunk > 0 {
                    engine.options().prefill_chunk
                } else {
                    1
                },
                role: match &engine.options().distributed {
                    Some(d) => Some(d.role),
                    None => None,
                },
                tokens: Vec::new(),
                position: 0,
                logits,
                cache,
                mtp,
                last_sync: SyncResult::Empty,
            },
        )
    }

    /// Releases the session.
    pub fn free(self) {
    }

    fn check_prompt(&self, prompt: &[u32]) -> (r: Ds4Result<()>)
        ensures
            match r {
                Ok(()) => prompt@.len() <= self@.ctx_size,
                Err(e) => prompt@.len() > self@.ctx_size && prompt_too_long(
                    e,
                    prompt@.len(),
                    self@.ctx_size as nat,
                ),
            },
    {
        if prompt.len() > self.ctx_size {
            let mut m: String = String::from_str("prompt length ");
            push_dec(&mut m, prompt.len() as u64);
            m.append(" exceeds context window ");
            push_dec(&mut m, self.ctx_size as u64);
            return Err(Ds4Error::new(Ds4ErrorKind::InvalidArgument, m));
        }
        Ok(())
    }

    fn is_continued_by(&self, prompt: &[u32]) -> (r: bool)
        ensures
            r == self@.continues(prompt@),
    {
        match self.last_sync {
            SyncResult::Common(n) => n <= self.tokens.len() && starts_with(
                prompt,
                &self.tokens,
                n,
            ),
            _ => false,
        }
    }

    /// The tokens that have to be evaluated to bring the session in line with a prompt: those of the
    /// prompt, which will be live then.
    pub fn sync_tokens(&self, prompt: &[u32]) -> (r: Ds4Result<Vec<u32>>)
        ensures
            match r {
                Ok(t) => prompt@.len() <= self@.ctx_size && t@ == prompt@,
                Err(e) => prompt@.len() > self@.ctx_size && prompt_too_long(
                    e,
                    prompt@.len(),
                    self@.ctx_size as nat,
                ),
            },
    {
        self.check_prompt(prompt)?;
        let all: Vec<u32> = copy_words(prompt, 0, prompt.len());
        assert(all@ =~= prompt@);
        Ok(all)
    }

    /// Brings the session in line with a prompt.
    ///
    /// `evaluated` is what evaluating the tokens of `sync_tokens` came to; where there are none to
    /// evaluate, it is not looked at. A failed evaluation leaves the session as it was.
    pub fn sync(&mut self, prompt: &[u32], evaluated: Ds4Result<Vec<u32>>) -> (r: Ds4Result<()>)
        requires
            old(self)@.wf(),
            evaluated matches Ok(l) ==> l@.len() == old(self)@.logits.len(),
        ensures
            final(self)@.wf(),
            if prompt@.len() > old(self)@.ctx_size {
                &&& r matches Err(e) && prompt_too_long(
                    e,
                    prompt@.len(),
                    old(self)@.ctx_size as nat,
                )
                &&& final(self)@ == old(self)@
            } else if prompt@.len() == 0 {
                r is Ok && final(self)@ == old(self)@.synced(prompt@)
            } else {
                match evaluated {
                    Ok(logits) => r is Ok && final(self)@ == (SessionView {
                        logits: logits@,
                        ..old(self)@.synced(prompt@)
                    }),
                    Err(e) => r == Err::<(), Ds4Error>(e) && final(self)@ == old(self)@,
                }
            },
            r is Ok ==> final(self)@.tokens == prompt@,
    {
        let target: Vec<u32> = self.sync_tokens(prompt)?;
        let ghost before = self@;
        let logits: Option<Vec<u32>> = if target.len() == 0 {
            None
        } else {
            match evaluated {
                Ok(l) => Some(l),
                Err(e) => return Err(e),
            }
        };
        let same: bool = self.last_sync == SyncResult::MatchAll && words_eq(
            self.tokens.as_slice(),
            prompt,
        );
        let continued: bool = self.is_continued_by(prompt);
        if !same {
            if !continued {
                self.cache.reset();
                self.mtp.reset();
            }
            self.position = target.len();
            self.tokens = target;
            self.last_sync = SyncResult::MatchAll;
        }
        assert(self@ == before.synced(prompt@));
        if let Some(l) = logits {
            self.logits = l;
        }
        Ok(())
    }

    fn check_prefix(&self, prompt: &[u32], common: usize) -> (r: bool)
        ensures
            r == self@.agrees(prompt@, common),
    {
        if common > self.tokens.len() || common > prompt.len() {
            return false;
        }
        starts_with(prompt, &self.tokens, common)
    }

    /// Makes the live tokens the prompt, trusting the first `common` of them. With nothing to trust,
    /// or where the live tokens and the prompt do not both have these and agree on them, a rebuild
    /// is needed first.
    pub fn rewrite_from_common(&mut self, prompt: &[u32], common: usize) -> (r: Ds4RewriteStatus)
        requires
            old(self)@.wf(),
        ensures
            final(self)@.wf(),
            if prompt@.len() > old(self)@.ctx_size {
                r == Ds4RewriteStatus::RewriteError && final(self)@ == old(self)@
            } else if common == 0 || !old(self)@.agrees(prompt@, common) {
                r == Ds4RewriteStatus::RebuildNeeded && final(self)@ == (SessionView {
                    last_sync: SyncResult::Diverges(common),
                    ..old(self)@
                })
            } else {
                r == Ds4RewriteStatus::Done && final(self)@ == old(self)@.rewritten(prompt@)
            },
            r == Ds4RewriteStatus::Done ==> final(self)@.tokens == prompt@,
            r != Ds4RewriteStatus::Done ==> final(self)@.tokens == old(self)@.tokens,
    {
        if prompt.len() > self.ctx_size {
            return Ds4RewriteStatus::RewriteError;
        }
        if common == 0 || !self.check_prefix(prompt, common) {
            self.last_sync = SyncResult::Diverges(common);
            return Ds4RewriteStatus::RebuildNeeded;
        }
        let ghost before = self@;
        self.tokens.truncate(common);
        assert(self.tokens@ =~= before.tokens.take(common as int));
        push_from(&mut self.tokens, prompt, common);
        proof {
            law_rewrite_gives_prompt(before, prompt@, common);
        }
        self.position = self.tokens.len();
        let target: usize = self.position;
        proof {
            law_rewind_all_shape(self.cache@, target);
        }
        self.cache.rewind_all(target);
        self.last_sync = SyncResult::MatchAll;
        Ds4RewriteStatus::Done
    }

    /// Number of tokens at the start of the prompt that are live.
    pub fn common_prefix(&self, prompt: &[u32]) -> (n: usize)
        ensures
            is_common_prefix(self@.tokens, prompt@, n),
    {
        let mut n: usize = 0;
        while n < self.tokens.len() && n < prompt.len() && self.tokens[n] == prompt[n]
            invariant
                n <= self.tokens@.len(),
                n <= prompt@.len(),
                forall|i: int| 0 <= i < n ==> #[trigger] self.tokens@[i] == prompt@[i],
            decreases self.tokens@.len() - n,
        {
            n += 1;
        }
        n
    }

    /// The most likely token.
    pub fn argmax(&self) -> (r: u32)
        ensures
            argmax_of(self@.logits, u32::MAX, r),
    {
        self.argmax_excluding(u32::MAX)
    }

    /// The most likely token but for one.
    pub fn argmax_excluding(&self, excluded: u32) -> (r: u32)
        ensures
            argmax_of(self@.logits, excluded, r),
    {
        sampler::argmax_excluding(self.logits.as_slice(), excluded)
    }

    /// The live logits.
    pub fn logits(&self) -> (r: &[u32])
        ensures
            r@ == self@.logits,
    {
        self.logits.as_slice()
    }

    /// Copies the first logits: at most `cap`, and as many as there are and as fit.
    pub fn copy_logits(&self, out: &mut Vec<u32>, cap: usize)
        ensures
            final(out)@.len() == old(out)@.len(),
            forall|i: int|
                0 <= i < old(out)@.len() ==> #[trigger] final(out)@[i] == if i < cap && i
                    < self@.logits.len() {
                    self@.logits[i]
                } else {
                    old(out)@[i]
                },
    {
        let ghost before = out@;
        let mut i: usize = 0;
        while i < out.len() && i < cap && i < self.logits.len()
            invariant
                i <= out@.len(),
                i <= cap,
                i <= self.logits@.len(),
                out@.len() == before.len(),
                forall|j: int|
                    0 <= j < before.len() ==> #[trigger] out@[j] == if j < i {
                        self.logits@[j]
                    } else {
                        before[j]
                    },
            decreases out@.len() - i,
        {
            out.set(i, self.logits[i]);
            i += 1;
        }
    }

    /// Replaces the first logits, as many as are given and as there are.
    pub fn set_logits(&mut self, logits: &[u32])
        requires
            old(self)@.wf(),
        ensures
            final(self)@.wf(),
            final(self)@ == (SessionView {
                logits: Seq::new(
                    old(self)@.logits.len(),
                    |i: int|
                        if i < logits@.len() {
                            logits@[i]
                        } else {
                            old(self)@.logits[i]
                        },
                ),
                ..old(self)@
            }),
    {
        let ghost before = self@;
        let mut i: usize = 0;
        while i < self.logits.len() && i < logits.len()
            invariant
                i <= logits@.len(),
                i <= self.logits@.len(),
                self.logits@.len() == before.logits.len(),
                self@ == (SessionView { logits: self.logits@, ..before }),
                forall|j: int|
                    0 <= j < before.logits.len() ==> #[trigger] self.logits@[j] == if j < i {
                        logits@[j]
                    } else {
                        before.logits[j]
                    },
            decreases logits@.len() - i,
        {
            self.logits.set(i, logits[i]);
            i += 1;
        }
        assert(self.logits@ =~= Seq::new(
            before.logits.len(),
            |i: int|
                if i < logits@.len() {
                    logits@[i]
                } else {
                    before.logits[i]
                },
        ));
    }

    /// The tokens that have to be evaluated to add a token. A full context is refused.
    pub fn eval_tokens(&self, token: u32) -> (r: Ds4Result<Vec<u32>>)
        requires
            self@.wf(),
        ensures
            match r {
                Ok(t) => self@.position < self@.ctx_size && t@ == self@.tokens.push(token),
                Err(e) => self@.position >= self@.ctx_size && exhausted(e),
            },
    {
        if self.position >= self.ctx_size {
            return Err(exhausted_error());
        }
        let mut tokens: Vec<u32> = copy_of(&self.tokens);
        tokens.push(token);
        Ok(tokens)
    }

    /// Adds a token. `evaluated` is what evaluating the tokens of `eval_tokens` came to. A failed
    /// evaluation leaves the session as it was.
    pub fn eval(&mut self, token: u32, evaluated: Ds4Result<Vec<u32>>) -> (r: Ds4Result<()>)
        requires
            old(self)@.wf(),
            evaluated matches Ok(l) ==> l@.len() == old(self)@.logits.len(),
        ensures
            final(self)@.wf(),
            if old(self)@.position >= old(self)@.ctx_size {
                (r matches Err(e) && exhausted(e)) && final(self)@ == old(self)@
            } else {
                match evaluated {
                    Ok(logits) => r is Ok && final(self)@ == old(self)@.evaluated(token, logits@),
                    Err(e) => r == Err::<(), Ds4Error>(e) && final(self)@ == old(self)@,
                }
            },
    {
        let tokens: Vec<u32> = self.eval_tokens(token)?;
        let logits: Vec<u32> = match evaluated {
            Ok(l) => l,
            Err(e) => return Err(e),
        };
        let pos: usize = self.position + 1;
        proof {
            law_rewind_all_shape(self.cache@, pos);
        }
        self.cache.rewind_all(pos);
        self.tokens = tokens;
        self.position = pos;
        self.logits = logits;
        self.mtp.reset();
        self.last_sync = SyncResult::Common(pos);
        Ok(())
    }

    /// The tokens that have to be evaluated to refresh the logits; none without live tokens.
    pub fn refresh_tokens(&self) -> (r: Option<Vec<u32>>)
        ensures
            match r {
                Some(t) => self@.tokens.len() > 0 && t@ == self@.tokens,
                None => self@.tokens.len() == 0,
            },
    {
        if self.tokens.len() == 0 {
            None
        } else {
            Some(copy_of(&self.tokens))
        }
    }

    /// Refreshes the logits. `evaluated` is what evaluating the tokens of `refresh_tokens` came
    /// to; without live tokens it is not looked at.
    pub fn refresh_logits(&mut self, evaluated: Ds4Result<Vec<u32>>) -> (r: Ds4Result<()>)
        requires
            old(self)@.wf(),
            evaluated matches Ok(l) ==> l@.len() == old(self)@.logits.len(),
        ensures
            final(self)@.wf(),
            if old(self)@.tokens.len() == 0 {
                r is Ok && final(self)@ == old(self)@
            } else {
                match evaluated {
                    Ok(logits) => r is Ok && final(self)@ == (SessionView {
                        logits: logits@,
                        ..old(self)@
                    }),
                    Err(e) => r == Err::<(), Ds4Error>(e) && final(self)@ == old(self)@,
                }
            },
    {
        if self.tokens.len() > 0 {
            match evaluated {
                Ok(l) => {
                    self.logits = l;
                },
                Err(e) => return Err(e),
            }
        }
        Ok(())
    }

    /// Adds up to `max` tokens without evaluating them: `first`, then the most likely token of the
    /// live logits, until the end token. The tokens but for the end token are also put into
    /// `accepted`. A full context ends the run with an error; what was added stays.
    pub fn eval_speculative_argmax(
        &mut self,
        first: u32,
        max: usize,
        eos: u32,
        accepted: &mut Vec<u32>,
    ) -> (r: Ds4Result<()>)
        requires
            old(self)@.wf(),
        ensures
            final(self)@.wf(),
            exists|best: u32| #[trigger]
                argmax_of(old(self)@.logits, u32::MAX, best) && ({
                    let n = if old(accepted)@.len() < max {
                        old(accepted)@.len()
                    } else {
                        max as nat
                    };
                    let room = if old(self)@.position < old(self)@.ctx_size {
                        (old(self)@.ctx_size - old(self)@.position) as nat
                    } else {
                        0
                    };
                    let run = speculated(0, n, room, first, best, eos);
                    &&& final(self)@ == (SessionView {
                        tokens: old(self)@.tokens + run.pushed,
                        position: (old(self)@.position + run.pushed.len()) as usize,
                        ..old(self)@
                    })
                    &&& final(accepted)@ == accepted_after(old(accepted)@, run.pushed, eos)
                    &&& if run.full {
                        r matches Err(e) && exhausted(e)
                    } else {
                        r is Ok
                    }
                }),
    {
        let best: u32 = self.argmax();
        let n: usize = if accepted.len() < max {
            accepted.len()
        } else {
            max
        };
        let ghost s0 = self@;
        let ghost acc0 = accepted@;
        let ghost room: nat = if s0.position < s0.ctx_size {
            (s0.ctx_size - s0.position) as nat
        } else {
            0
        };
        let ghost run = speculated(0, n as nat, room, first, best, eos);
        let mut i: usize = 0;
        assert(self.tokens@ =~= s0.tokens + Seq::<u32>::empty());
        assert(Seq::<u32>::empty() + run.pushed =~= run.pushed);
        let ghost mut done: Seq<u32> = Seq::empty();
        while i < n
            invariant
                i <= n,
                n <= acc0.len(),
                n == if acc0.len() < max {
                    acc0.len()
                } else {
                    max as nat
                },
                s0 == old(self)@,
                acc0 == old(accepted)@,
                accepted@.len() == acc0.len(),
                s0.wf(),
                self@.wf(),
                argmax_of(s0.logits, u32::MAX, best),
                room == if s0.position < s0.ctx_size {
                    (s0.ctx_size - s0.position) as nat
                } else {
                    0
                },
                run == speculated(0, n as nat, room, first, best, eos),
                done.len() == i,
                self@ == (SessionView {
                    tokens: s0.tokens + done,
                    position: (s0.position + i) as usize,
                    ..s0
                }),
                i > 0 ==> i <= room,
                forall|j: int| 0 <= j < i ==> done[j] != eos,
                forall|j: int|
                    0 <= j < acc0.len() ==> #[trigger] accepted@[j] == if j < i {
                        done[j]
                    } else {
                        acc0[j]
                    },
                run.pushed == done + speculated(
                    i as nat,
                    n as nat,
                    room,
                    first,
                    best,
                    eos,
                ).pushed,
                run.full == speculated(i as nat, n as nat, room, first, best, eos).full,
            decreases n - i,
        {
            if self.position >= self.ctx_size {
                proof {
                    assert(i >= room);
                    assert(run.pushed =~= done);
                    assert(accepted@ =~= accepted_after(acc0, run.pushed, eos));
                }
                return Err(exhausted_error());
            }
            let next: u32 = if i == 0 {
                first
            } else {
                best
            };
            let ghost rest = speculated(i as nat + 1, n as nat, room, first, best, eos);
            self.tokens.push(next);
            self.position = self.position + 1;
            assert(self.tokens@ =~= s0.tokens + done.push(next));
            if next == eos {
                proof {
                    assert(run.pushed =~= done.push(next));
                    assert(accepted@ =~= accepted_after(acc0, run.pushed, eos));
                }
                return Ok(());
            }
            accepted.set(i, next);
            proof {
                assert(done + (seq![next] + rest.pushed) =~= done.push(next) + rest.pushed);
                done = done.push(next);
            }
            i += 1;
        }
        proof {
            assert(run.pushed =~= done);
            assert(accepted@ =~= accepted_after(acc0, run.pushed, eos));
        }
        Ok(())
    }

    /// Drops all tokens.
    pub fn invalidate(&mut self)
        requires
            old(self)@.wf(),
        ensures
            final(self)@.wf(),
            final(self)@ == old(self)@.invalidated(),
    {
        self.tokens.clear();
        self.position = 0;
        self.cache.reset();
        self.mtp.reset();
        self.last_sync = SyncResult::Empty;
    }

    /// Goes back to an earlier position. A position that was not reached yet, or that is the end
    /// of the context, is ignored.
    pub fn rewind(&mut self, pos: usize)
        requires
            old(self)@.wf(),
        ensures
            final(self)@.wf(),
            final(self)@ == if pos < old(self)@.ctx_size && pos <= old(self)@.position {
                old(self)@.rewound(pos)
            } else {
                old(self)@
            },
    {
        if pos < self.ctx_size && pos <= self.position {
            let ghost before = self@;
            self.tokens.truncate(pos);
            assert(self.tokens@ =~= before.tokens.take(pos as int));
            self.position = pos;
            proof {
                law_rewind_all_shape(self.cache@, pos);
            }
            self.cache.rewind_all(pos);
            self.last_sync = SyncResult::MatchAll;
        }
    }

    /// The position: the number of live tokens.
    pub fn pos(&self) -> (r: usize)
        ensures
            r == self@.position,
    {
        self.position
    }

    /// Length of the context.
    pub fn ctx(&self) -> (r: usize)
        ensures
            r == self@.ctx_size,
    {
        self.ctx_size
    }

    /// Number of prompt tokens evaluated at a time.
    pub fn prefill_cap(&self) -> (r: usize)
        ensures
            r == self@.prefill_chunk,
    {
        self.prefill_chunk
    }

    /// The live tokens.
    pub fn tokens(&self) -> (r: Vec<u32>)
        ensures
            r@ == self@.tokens,
    {
        copy_of(&self.tokens)
    }

    /// `true` if the engine is a coordinator or a worker.
    pub fn is_distributed(&self) -> (r: bool)
        ensures
            r == (self@.role == Some(Ds4DistributedRole::Coordinator) || self@.role == Some(
                Ds4DistributedRole::Worker,
            )),
    {
        match self.role {
            Some(Ds4DistributedRole::Coordinator) => true,
            Some(Ds4DistributedRole::Worker) => true,
            _ => false,
        }
    }

    /// Starts sampling from the live logits.
    pub fn sample_start(&self, temperature: u32, top_k: usize, top_p: u32, min_p: u32) -> (r:
        SampleStart)
        requires
            self@.wf(),
        ensures
            sampler::is_sample_start(r, self@.logits, temperature, top_k, top_p, min_p),
    {
        sampler::sample_start(self.logits.as_slice(), temperature, top_k, top_p, min_p)
    }
}

/// Of the accepted tokens those are replaced, each in its place, that were added before the end
/// token; nothing else changes.
pub proof fn law_accepted(accepted: Seq<u32>, pushed: Seq<u32>, eos: u32, i: int)
    requires
        0 <= i < accepted.len(),
    ensures
        accepted_after(accepted, pushed, eos).len() == accepted.len(),
        i >= pushed.len() ==> accepted_after(accepted, pushed, eos)[i] == accepted[i],
        i < pushed.len() && pushed[i] == eos ==> accepted_after(accepted, pushed, eos)[i]
            == accepted[i],
        i < pushed.len() && pushed[i] != eos ==> accepted_after(accepted, pushed, eos)[i]
            == pushed[i],
{
}

} // verus!
