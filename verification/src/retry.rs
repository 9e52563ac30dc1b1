//! Loading the whole catalog from the daemon: how often to try, how long to
//! wait between tries, and what to report when it cannot be had.
//!
//! The program makes the attempts and sleeps; after each attempt it asks
//! here what to do next.

use crate::song::SongTags;
use vstd::prelude::*;
use vstd::string::StringExecFns;

verus! {

/// How many times the catalog is asked for before giving up.
pub const MAX_RETRIES: u32 = 3;

/// The wait after the first failed attempt, in milliseconds.
pub const BASE_DELAY_MS: u64 = 1000;

/// The wait after the failed attempt number `attempt`, in milliseconds: the
/// base delay after the first, and twice the last wait after each further
/// one.
pub open spec fn backoff_delay_ms(attempt: nat) -> nat
    decreases attempt,
{
    if attempt <= 1 {
        BASE_DELAY_MS as nat
    } else {
        2 * backoff_delay_ms((attempt - 1) as nat)
    }
}

/// The waits grow from one failed attempt to the next.
pub proof fn lemma_backoff_increases(earlier: nat, later: nat)
    requires
        1 <= earlier < later,
    ensures
        backoff_delay_ms(earlier) < backoff_delay_ms(later),
    decreases later,
{
    lemma_backoff_positive(earlier);
    if later > earlier + 1 {
        lemma_backoff_increases(earlier, (later - 1) as nat);
    }
}

proof fn lemma_backoff_positive(attempt: nat)
    ensures
        backoff_delay_ms(attempt) > 0,
    decreases attempt,
{
    if attempt > 1 {
        lemma_backoff_positive((attempt - 1) as nat);
    }
}

/// Why the library could not be loaded.
#[derive(Debug)]
pub enum LoadError {
    /// The daemon did not answer the status probe.
    Connection(String),
    /// Every attempt to fetch the catalog failed; the last failure is kept.
    Exhausted(String),
}

/// The mathematical value of a [`LoadError`].
pub enum LoadErrorView {
    Connection(Seq<char>),
    Exhausted(Seq<char>),
}

impl View for LoadError {
    type V = LoadErrorView;

    open spec fn view(&self) -> LoadErrorView {
        match self {
            LoadError::Connection(reason) => LoadErrorView::Connection(reason@),
            LoadError::Exhausted(reason) => LoadErrorView::Exhausted(reason@),
        }
    }
}

/// What a load error says.
pub open spec fn message_of(error: LoadErrorView) -> Seq<char> {
    match error {
        LoadErrorView::Connection(reason) => "Failed to validate MPD connection: "@ + reason,
        LoadErrorView::Exhausted(reason) => "Failed to load library after 3 attempts: "@ + reason,
    }
}

impl LoadError {
    /// The error in words.
    pub fn message(&self) -> (r: String)
        ensures
            r@ == message_of(self@),
    {
        match self {
            LoadError::Connection(reason) => String::from_str(
                "Failed to validate MPD connection: ",
            ).concat(reason.as_str()),
            LoadError::Exhausted(reason) => String::from_str(
                "Failed to load library after 3 attempts: ",
            ).concat(reason.as_str()),
        }
    }
}

/// What the status probe says of the connection: the library is loaded
/// only over a connection that answers.
pub fn validate_connection(probe: Result<(), String>) -> (r: Result<(), LoadError>)
    ensures
        match probe {
            Ok(_) => r is Ok,
            Err(reason) => r matches Err(e) && e@ == LoadErrorView::Connection(reason@),
        },
{
    match probe {
        Ok(_) => Ok(()),
        Err(reason) => Err(LoadError::Connection(reason)),
    }
}

/// What to do after an attempt to fetch the catalog.
#[derive(Debug)]
pub enum LoadStep {
    /// The catalog is here.
    Done(Vec<SongTags>),
    /// Wait this many milliseconds, then try again.
    RetryAfter(u64),
    /// Give up with this error.
    Failed(LoadError),
}

/// The wait after the failed attempt number `attempt`.
fn backoff_delay(attempt: u32) -> (delay: u64)
    requires
        attempt < MAX_RETRIES,
    ensures
        delay == backoff_delay_ms(attempt as nat),
{
    let mut delay: u64 = BASE_DELAY_MS;
    let mut done: u32 = 1;
    proof {
        reveal_with_fuel(backoff_delay_ms, 4);
    }
    while done < attempt
        invariant
            1 <= done < MAX_RETRIES,
            attempt < MAX_RETRIES,
            done <= attempt || (attempt == 0 && done == 1),
            delay == backoff_delay_ms(done as nat),
        decreases attempt - done,
    {
        proof {
            reveal_with_fuel(backoff_delay_ms, 4);
        }
        delay = delay * 2;
        done += 1;
    }
    proof {
        reveal_with_fuel(backoff_delay_ms, 2);
    }
    delay
}

/// Decides what follows the attempt number `attempt`, counted from one,
/// which ended with `outcome`. A catalog that came is handed on. After a
/// failure the next attempt follows its wait, until `MAX_RETRIES` attempts
/// have been made: the failure of the last one is final.
pub fn load_songs_with_retry(attempt: u32, outcome: Result<Vec<SongTags>, String>) -> (step:
    LoadStep)
    ensures
        match outcome {
            Ok(songs) => step matches LoadStep::Done(s) && s == songs,
            Err(reason) => if attempt >= MAX_RETRIES {
                step matches LoadStep::Failed(e) && e@ == LoadErrorView::Exhausted(reason@)
            } else {
                step matches LoadStep::RetryAfter(d) && d == backoff_delay_ms(attempt as nat)
            },
        },
{
    match outcome {
        Ok(songs) => LoadStep::Done(songs),
        Err(reason) => {
            if attempt >= MAX_RETRIES {
                LoadStep::Failed(LoadError::Exhausted(reason))
            } else {
                LoadStep::RetryAfter(backoff_delay(attempt))
            }
        },
    }
}

} // verus!
