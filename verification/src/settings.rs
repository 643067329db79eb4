//! Configuration of the pipeline and of the application around it.

use vstd::prelude::*;

verus! {

/// Why a stream configuration is rejected.
#[derive(Clone, Copy, Debug, PartialEq, Eq, Structural)]
pub enum ConfigError {
    /// No keyword is tracked.
    NoKeywords,
    /// The batch size is zero.
    ZeroChunkSize,
    /// The limit on concurrent batches is zero.
    ZeroConcurrency,
}

/// What the stream runner is configured with.
#[derive(Clone, Debug)]
pub struct TwitterSettings {
    /// Words to track; a post matches when its text contains one of them,
    /// whatever the case of either.
    pub track_tweets: Vec<String>,
    /// Number of posts that make a batch.
    pub chunk_size: usize,
    /// Number of batches that may be in flight at once.
    pub concurrency: usize,
    /// Seconds to wait before the stream is opened again.
    pub secs_reconnect: u64,
    /// Number of posts to fetch for a keyword without history.
    pub search_count: u32,
}

impl TwitterSettings {
    /// At least one keyword is tracked, and batch size and concurrency limit
    /// are positive.
    pub open spec fn is_valid(&self) -> bool {
        &&& self.track_tweets.len() > 0
        &&& self.chunk_size > 0
        &&& self.concurrency > 0
    }

    /// Checks the configuration and names the first fault found, in the
    /// order: keywords, batch size, concurrency limit.
    pub fn validate(&self) -> (checked: Result<(), ConfigError>)
        ensures
            checked is Ok <==> self.is_valid(),
            checked == Err::<(), ConfigError>(ConfigError::NoKeywords) <==> self.track_tweets.len()
                == 0,
            checked == Err::<(), ConfigError>(ConfigError::ZeroChunkSize) <==> self.track_tweets.len()
                > 0 && self.chunk_size == 0,
            checked == Err::<(), ConfigError>(ConfigError::ZeroConcurrency)
                <==> self.track_tweets.len() > 0 && self.chunk_size > 0 && self.concurrency == 0,
    {
        if self.track_tweets.len() == 0 {
            Err(ConfigError::NoKeywords)
        } else if self.chunk_size == 0 {
            Err(ConfigError::ZeroChunkSize)
        } else if self.concurrency == 0 {
            Err(ConfigError::ZeroConcurrency)
        } else {
            Ok(())
        }
    }
}

/// Severity from which log records are written.
#[derive(Clone, Copy, Debug, PartialEq, Eq, Structural)]
pub enum LogLevel {
    Trace,
    Debug,
    Info,
    Warn,
    Error,
}

/// Defaults for the chart routes.
#[derive(Clone, Copy, Debug)]
pub struct WebDefaults {
    /// Weight of the previous value in the exponential moving average, as a
    /// binary64 pattern.
    pub alpha: u64,
    /// Window size of the moving average.
    pub window: usize,
}

/// The application's configuration.
#[derive(Clone, Debug)]
pub struct Settings {
    /// Address and port that the web server binds to.
    pub bind: String,
    /// Severity from which log records are written.
    pub log_level: LogLevel,
    /// Configuration of the stream runner.
    pub twitter: TwitterSettings,
    /// Defaults for the chart routes.
    pub web_defaults: WebDefaults,
}

} // verus!
