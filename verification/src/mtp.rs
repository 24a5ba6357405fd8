//! Multi-token prediction: configuration and draft state.

use vstd::prelude::*;

verus! {

/// Number of draft tokens and rejection margin, the latter by its bit pattern.
#[derive(Debug, Clone, Copy, PartialEq, Eq, Structural)]
pub struct Ds4MtpConfig {
    pub draft_tokens: usize,
    pub margin: u32,
}

impl Default for Ds4MtpConfig {
    fn default() -> (c: Self)
        ensures
            c == (Ds4MtpConfig { draft_tokens: 0, margin: 0 }),
    {
        Ds4MtpConfig { draft_tokens: 0, margin: 0 }
    }
}

/// The most recent draft tokens, and how many were accepted in a row.
#[derive(Debug)]
pub struct Ds4Mtp {
    pub config: Ds4MtpConfig,
    pub drafts: Vec<u32>,
    pub accepted_run: usize,
}

/// What the draft state holds.
pub struct MtpView {
    pub config: Ds4MtpConfig,
    pub drafts: Seq<u32>,
    pub accepted_run: usize,
}

impl View for Ds4Mtp {
    type V = MtpView;

    open spec fn view(&self) -> MtpView {
        MtpView {
            config: self.config,
            drafts: self.drafts@,
            accepted_run: self.accepted_run,
        }
    }
}

impl MtpView {
    /// No drafts.
    pub open spec fn cleared(self) -> MtpView {
        MtpView { drafts: Seq::empty(), accepted_run: 0, ..self }
    }
}

/// The state before the first draft.
pub open spec fn fresh_mtp(config: Ds4MtpConfig) -> MtpView {
    MtpView { config, drafts: Seq::empty(), accepted_run: 0 }
}

impl Ds4Mtp {
    /// A state without drafts and without a draft length.
    pub fn new() -> (m: Self)
        ensures
            m@ == fresh_mtp(Ds4MtpConfig { draft_tokens: 0, margin: 0 }),
    {
        Self::with_config(Ds4MtpConfig { draft_tokens: 0, margin: 0 })
    }

    /// A state without drafts.
    pub fn with_config(cfg: Ds4MtpConfig) -> (m: Self)
        ensures
            m@ == fresh_mtp(cfg),
    {
        Ds4Mtp { config: cfg, drafts: Vec::new(), accepted_run: 0 }
    }

    /// The configuration.
    pub fn config(&self) -> (c: &Ds4MtpConfig)
        ensures
            *c == self@.config,
    {
        &self.config
    }

    /// How many drafts were accepted in a row.
    pub fn accepted_run(&self) -> (n: usize)
        ensures
            n == self@.accepted_run,
    {
        self.accepted_run
    }

    /// The drafts.
    pub fn drafts(&self) -> (d: &[u32])
        ensures
            d@ == self@.drafts,
    {
        self.drafts.as_slice()
    }

    /// Drops the drafts.
    pub fn reset(&mut self)
        ensures
            final(self)@ == old(self)@.cleared(),
    {
        self.drafts.clear();
        self.accepted_run = 0;
    }
}

impl Default for Ds4Mtp {
    fn default() -> (m: Self)
        ensures
            m@ == fresh_mtp(Ds4MtpConfig { draft_tokens: 0, margin: 0 }),
    {
        Self::new()
    }
}

impl Clone for Ds4Mtp {
    fn clone(&self) -> (m: Self)
        ensures
            m@ == self@,
    {
        let drafts: Vec<u32> = self.drafts.clone();
        assert(drafts@ =~= self.drafts@);
        Ds4Mtp { config: self.config, drafts, accepted_run: self.accepted_run }
    }
}

} // verus!
