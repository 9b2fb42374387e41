//! What the process has one of: the subscriber that its log goes to, and the
//! default crypto provider.
//!
//! A [`SubscriberAttempt`] or a [`RingAttempt`] shows that the process was asked
//! to take one: nothing but the asking makes such a value. A [`Process`] records
//! what was asked through it, and each attempt tells how many came before it.

use tracing_subscriber::EnvFilter;
use vstd::prelude::*;

verus! {

/// An attempt to make a subscriber that of the process.
pub struct SubscriberAttempt {
    directives: String,
    refusal: Option<String>,
    earlier: usize,
}

impl SubscriberAttempt {
    /// How many subscribers were asked for before, in the same record.
    pub closed spec fn earlier(self) -> nat {
        self.earlier as nat
    }

    /// The directives that the subscriber goes by.
    pub closed spec fn goes_by(self) -> Seq<char> {
        self.directives@
    }

    /// Why the attempt failed, where it did.
    pub closed spec fn refused(self) -> Option<Seq<char>> {
        match self.refusal {
            Some(error) => Some(error@),
            None => None,
        }
    }

    /// The directives that the subscriber goes by.
    pub fn directives(&self) -> (text: &str)
        ensures
            text@ == self.goes_by(),
    {
        self.directives.as_str()
    }

    /// Why the attempt failed, where it did.
    pub fn refusal(&self) -> (error: Option<&str>)
        ensures
            match error {
                Some(text) => self.refused() == Some(text@),
                None => self.refused() is None,
            },
    {
        match &self.refusal {
            Some(error) => Some(error.as_str()),
            None => None,
        }
    }
}

/// An attempt to make ring the default crypto provider of the process.
pub struct RingAttempt {
    installed: bool,
    earlier: usize,
}

impl RingAttempt {
    /// How many times ring was asked for before, in the same record.
    pub closed spec fn earlier(self) -> nat {
        self.earlier as nat
    }

    /// The process had no default before.
    pub closed spec fn won(self) -> bool {
        self.installed
    }

    /// Whether the process had no default before.
    pub fn is_installed(&self) -> (b: bool)
        ensures
            b == self.won(),
    {
        self.installed
    }
}

/// A record of what the process was asked for.
pub struct Process {
    subscribers: Vec<String>,
    rings: Vec<bool>,
}

impl Process {
    /// The directives of each subscriber that it was asked to take, in order.
    pub closed spec fn subscribers(self) -> Seq<Seq<char>> {
        self.subscribers@.map_values(|directives: String| directives@)
    }

    /// For each time that it was asked to take ring, in order, whether it did.
    pub closed spec fn rings(self) -> Seq<bool> {
        self.rings@
    }

    /// A record in which nothing was asked for.
    pub fn new() -> (process: Process)
        ensures
            process.subscribers().len() == 0,
            process.rings().len() == 0,
    {
        Process { subscribers: Vec::new(), rings: Vec::new() }
    }
}

/// `SubscriberBuilder::try_init`, of the formatting subscriber with `filter` and
/// stderr: makes it the process's subscriber.
///
/// Trusted: the subscriber goes by the directives of the filter that was handed
/// over, which the record tells from then on; and since each attempt, whatever
/// comes of it, leaves the process with a subscriber that is never taken back, one
/// after another attempt fails. Whether the first one fails depends on what the
/// process was given elsewhere, of which no contract here speaks, nor of where the
/// lines go.
#[verifier::external_body]
pub(crate) fn install_subscriber(process: &mut Process, filter: EnvFilter) -> (attempt:
    SubscriberAttempt)
    ensures
        attempt.goes_by() == crate::log_filter::filter_text(filter),
        attempt.earlier() == old(process).subscribers().len(),
        attempt.earlier() > 0 ==> attempt.refused() is Some,
        final(process).subscribers() == old(process).subscribers().push(attempt.goes_by()),
        final(process).rings() == old(process).rings(),
{
    let directives = filter.to_string();
    let earlier = process.subscribers.len();
    process.subscribers.push(directives.clone());
    let installed = tracing_subscriber::fmt()
        .with_env_filter(filter)
        .with_writer(std::io::stderr)
        .try_init();
    SubscriberAttempt { directives, refusal: installed.err().map(|e| format!("{e:?}")), earlier }
}

/// `CryptoProvider::install_default`, of ring's provider: makes it the default
/// of the process.
///
/// Trusted: the record tells from then on what came of it; and since the default
/// is set once and for all, an attempt after another one fails. Whether the first
/// one fails depends on what the process was given elsewhere, of which no contract
/// here speaks.
#[verifier::external_body]
pub(crate) fn install_ring(process: &mut Process) -> (attempt: RingAttempt)
    ensures
        attempt.earlier() == old(process).rings().len(),
        attempt.earlier() > 0 ==> !attempt.won(),
        final(process).rings() == old(process).rings().push(attempt.won()),
        final(process).subscribers() == old(process).subscribers(),
{
    let installed = rustls::crypto::ring::default_provider().install_default().is_ok();
    let earlier = process.rings.len();
    process.rings.push(installed);
    RingAttempt { installed, earlier }
}

} // verus!
