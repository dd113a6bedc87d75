//! Configuration resolved once at construction and shared with the writer.
//!
//! Defaults follow the DataDog log-intake limits.

use vstd::prelude::*;

verus! {

/// Largest request body accepted by the intake, used when none is configured.
pub const DEFAULT_MAX_PAYLOAD_BYTES: usize = 5000000;

/// Largest single line accepted by the intake, used when none is configured.
pub const DEFAULT_MAX_LINE_BYTES: usize = 1000000;

/// Largest number of lines per request, used when none is configured.
pub const DEFAULT_MAX_LOG_LINES: usize = 1000;

/// The ingest URL used when none is configured.
pub open spec fn default_api_host() -> Seq<char> {
    "https://http-intake.logs.datadoghq.com/api/v2/logs"@
}

/// DataDog api configuration.
#[derive(Debug)]
pub struct DataDogConfig {
    /// The name of the originating host of the log.
    pub hostname: String,
    /// The name of the application or service generating log events.
    pub service: String,
    /// DataDog api key.
    pub api_key: String,
    /// DataDog api url.
    pub api_host: String,
    /// Tags associated with logs.
    pub tags: Vec<(String, String)>,
    /// The integration name associated with the logs.
    pub source: String,
    /// Maximum log lines buffered before a flush is forced.
    pub max_log_lines: usize,
    /// Maximum allowed api request size in bytes.
    pub max_payload_size: usize,
    /// Maximum size allowed for a single rendered line in bytes.
    pub max_line_size: usize,
    /// Whether to compress each line of the body.
    pub gzip: bool,
}

/// Builder for [`DataDogConfig`]: unset options fall back to the defaults.
#[derive(Debug)]
pub struct DataDogConfigBuilder {
    /// The name of the originating host of the log.
    pub hostname: String,
    /// The name of the application or service generating log events.
    pub service: String,
    /// DataDog api key.
    pub api_key: String,
    /// DataDog api url.
    pub api_host: Option<String>,
    /// Tags associated with logs.
    pub tags: Vec<(String, String)>,
    /// The integration name associated with the logs.
    pub source: String,
    /// Maximum log lines buffered before a flush is forced.
    pub max_log_lines: Option<usize>,
    /// Maximum size allowed for a single rendered line in bytes.
    pub max_line_size: Option<usize>,
    /// Maximum allowed api request size in bytes.
    pub max_payload_size: Option<usize>,
    /// Whether to compress each line of the body.
    pub gzip: Option<bool>,
}

/// Clone a tag list pair by pair.
fn clone_tags(tags: &Vec<(String, String)>) -> (r: Vec<(String, String)>)
    ensures
        r.deep_view() == tags.deep_view(),
{
    let mut out: Vec<(String, String)> = Vec::new();
    let mut i: usize = 0;
    while i < tags.len()
        invariant
            i <= tags.len(),
            out@.len() == i,
            forall|j: int|
                0 <= j < i ==> out@[j].0@ == tags@[j].0@ && out@[j].1@ == tags@[j].1@,
        decreases tags.len() - i,
    {
        let t = &tags[i];
        out.push((t.0.clone(), t.1.clone()));
        i = i + 1;
    }
    proof {
        assert(out.deep_view() =~= tags.deep_view());
    }
    out
}

impl DataDogConfigBuilder {
    /// Create a new [`DataDogConfigBuilder`] with every option unset.
    pub fn new(hostname: String, service: String, api_key: String) -> (r: Self)
        ensures
            r.hostname == hostname,
            r.service == service,
            r.api_key == api_key,
            r.api_host is None,
            r.tags@ =~= Seq::<(String, String)>::empty(),
            r.source@ == "rust"@,
            r.max_log_lines is None,
            r.max_line_size is None,
            r.max_payload_size is None,
            r.gzip is None,
    {
        Self {
            hostname,
            service,
            api_key,
            api_host: None,
            tags: Vec::new(),
            source: String::from_str("rust"),
            max_log_lines: None,
            max_line_size: None,
            max_payload_size: None,
            gzip: None,
        }
    }

    /// Configure the api url; `None` restores the default.
    pub fn with_api_host(&mut self, api_host: Option<String>) -> (r: &mut Self)
        ensures
            (*r == DataDogConfigBuilder { api_host, ..*old(self) }),
            *final(self) == *final(r),
    {
        self.api_host = api_host;
        self
    }

    /// Configure tags that will be applied to logs.
    pub fn with_tags(&mut self, tags: Vec<(String, String)>) -> (r: &mut Self)
        ensures
            (*r == DataDogConfigBuilder { tags, ..*old(self) }),
            *final(self) == *final(r),
    {
        self.tags = tags;
        self
    }

    /// Configure the source name attached to logs.
    pub fn with_source(&mut self, source: String) -> (r: &mut Self)
        ensures
            (*r == DataDogConfigBuilder { source, ..*old(self) }),
            *final(self) == *final(r),
    {
        self.source = source;
        self
    }

    /// Configure the line count that forces a flush; `None` restores the default.
    pub fn with_max_log_lines(&mut self, count: Option<usize>) -> (r: &mut Self)
        ensures
            (*r == DataDogConfigBuilder { max_log_lines: count, ..*old(self) }),
            *final(self) == *final(r),
    {
        self.max_log_lines = count;
        self
    }

    /// Configure the largest single line size; `None` restores the default.
    pub fn with_max_line_size(&mut self, bytes: Option<usize>) -> (r: &mut Self)
        ensures
            (*r == DataDogConfigBuilder { max_line_size: bytes, ..*old(self) }),
            *final(self) == *final(r),
    {
        self.max_line_size = bytes;
        self
    }

    /// Configure the largest request size; `None` restores the default.
    pub fn with_max_payload_size(&mut self, bytes: Option<usize>) -> (r: &mut Self)
        ensures
            (*r == DataDogConfigBuilder { max_payload_size: bytes, ..*old(self) }),
            *final(self) == *final(r),
    {
        self.max_payload_size = bytes;
        self
    }

    /// Configure compression; `None` restores the default (enabled).
    pub fn with_gzip(&mut self, gzip: Option<bool>) -> (r: &mut Self)
        ensures
            (*r == DataDogConfigBuilder { gzip, ..*old(self) }),
            *final(self) == *final(r),
    {
        self.gzip = gzip;
        self
    }

    /// Build a [`DataDogConfig`], filling every unset option with its default.
    pub fn build(&self) -> (r: DataDogConfig)
        ensures
            r.hostname@ == self.hostname@,
            r.service@ == self.service@,
            r.api_key@ == self.api_key@,
            (match self.api_host {
                Some(h) => r.api_host@ == h@,
                None => r.api_host@ == default_api_host(),
            }),
            r.tags.deep_view() == self.tags.deep_view(),
            r.source@ == self.source@,
            r.max_log_lines == (match self.max_log_lines {
                Some(n) => n,
                None => DEFAULT_MAX_LOG_LINES,
            }),
            r.max_line_size == (match self.max_line_size {
                Some(n) => n,
                None => DEFAULT_MAX_LINE_BYTES,
            }),
            r.max_payload_size == (match self.max_payload_size {
                Some(n) => n,
                None => DEFAULT_MAX_PAYLOAD_BYTES,
            }),
            r.gzip == (match self.gzip {
                Some(g) => g,
                None => true,
            }),
    {
        DataDogConfig {
            hostname: self.hostname.clone(),
            service: self.service.clone(),
            api_key: self.api_key.clone(),
            api_host: match &self.api_host {
                Some(h) => h.clone(),
                None => String::from_str("https://http-intake.logs.datadoghq.com/api/v2/logs"),
            },
            tags: clone_tags(&self.tags),
            source: self.source.clone(),
            max_log_lines: match self.max_log_lines {
                Some(n) => n,
                None => DEFAULT_MAX_LOG_LINES,
            },
            max_line_size: match self.max_line_size {
                Some(n) => n,
                None => DEFAULT_MAX_LINE_BYTES,
            },
            max_payload_size: match self.max_payload_size {
                Some(n) => n,
                None => DEFAULT_MAX_PAYLOAD_BYTES,
            },
            gzip: match self.gzip {
                Some(g) => g,
                None => true,
            },
        }
    }
}

} // verus!
