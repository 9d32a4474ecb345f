//! Per-module orchestration: resolve a module's source and sink against
//! the configuration, substitute environment variables into the URL and
//! headers, rewrite the rendered SQL onto the destination table, and
//! decide how the fetch runs. Everything here is decided before any
//! request is made; the caller performs I/O only with a prepared plan,
//! so a missing environment variable or a missing table name fails the
//! run before the first request.

use vstd::prelude::*;
use crate::envsub::{envsub_from, substitute_env_vars};
use crate::errors::ApitapError;
use crate::fetch::{Pagination, Retry};
use crate::strutil::{chars_to_string, replace_all_chars, replace_all_spec, str_to_chars};
use crate::template::{subst_from, substitute_templates_with};
use crate::dates::{Date, local_today};
use crate::writer::WriteMode;

verus! {

/// Default number of pages in flight at once.
pub const CONCURRENCY: usize = 5;

/// Default records per page.
pub const DEFAULT_PAGE_SIZE: usize = 50;

/// Default record buffer between fetcher and consumer.
pub const FETCH_BATCH_SIZE: usize = 256;

/// Command-line options.
#[derive(Debug, Clone)]
pub struct Cli {
    pub modules: String,
    pub yaml_config: String,
    pub log_json: bool,
    pub log_level: Option<String>,
}

impl Default for Cli {
    /// The defaults: modules under `pipelines`, configuration in
    /// `pipelines.yaml`, human-readable logs.
    fn default() -> (r: Self)
        ensures
            r.modules@ == "pipelines"@,
            r.yaml_config@ == "pipelines.yaml"@,
            !r.log_json,
            r.log_level is None,
    {
        Cli {
            modules: String::from_str("pipelines"),
            yaml_config: String::from_str("pipelines.yaml"),
            log_json: false,
            log_level: None,
        }
    }
}

/// What a template render captured: the sink, the source, and the cron
/// schedule the module declared.
#[derive(Debug, Clone)]
pub struct RenderCapture {
    pub sink: String,
    pub source: String,
    pub schedule: String,
}

impl Default for RenderCapture {
    /// An empty capture.
    fn default() -> (r: Self)
        ensures
            r.sink@.len() == 0,
            r.source@.len() == 0,
            r.schedule@.len() == 0,
    {
        RenderCapture { sink: String::new(), source: String::new(), schedule: String::new() }
    }
}

impl RenderCapture {
    /// Record the declared sink name.
    pub fn record_sink(&mut self, name: String)
        ensures
            final(self).sink == name,
            final(self).source == old(self).source,
            final(self).schedule == old(self).schedule,
    {
        self.sink = name;
    }

    /// Record the declared source name and hand it back, so the call
    /// can stand where the source's table name is referenced.
    pub fn record_source(&mut self, name: String) -> (r: String)
        ensures
            final(self).source@ == name@,
            r@ == name@,
            final(self).sink == old(self).sink,
            final(self).schedule == old(self).schedule,
    {
        let out = name.clone();
        self.source = name;
        out
    }

    /// Record the declared cron schedule.
    pub fn record_schedule(&mut self, name: String)
        ensures
            final(self).schedule == name,
            final(self).sink == old(self).sink,
            final(self).source == old(self).source,
    {
        self.schedule = name;
    }

    /// Clear every captured name, before a fresh render.
    pub fn reset(&mut self)
        ensures
            final(self).sink@.len() == 0,
            final(self).source@.len() == 0,
            final(self).schedule@.len() == 0,
    {
        self.sink = String::new();
        self.source = String::new();
        self.schedule = String::new();
    }
}

/// One rendered module: its name, the rendered SQL, and the capture.
#[derive(Debug, Clone)]
pub struct RenderedSql {
    pub name: String,
    pub sql: String,
    pub capture: RenderCapture,
}

/// One configured header.
#[derive(Debug, Clone)]
pub struct Header {
    pub key: String,
    pub value: String,
}

/// One configured request parameter; its value may hold template calls.
#[derive(Debug, Clone)]
pub struct QueryParam {
    pub key: String,
    pub value: String,
}

/// One configured source: where and how to fetch one resource.
#[derive(Debug, Clone)]
pub struct Source {
    pub url: String,
    pub headers: Option<Vec<Header>>,
    pub data_path: Option<String>,
    pub query_params: Option<Vec<QueryParam>>,
    pub pagination: Option<Pagination>,
    pub retry: Retry,
    pub table_destination_name: Option<String>,
    pub primary_key_in_dest: Option<String>,
}

/// One configured warehouse destination.
#[derive(Debug, Clone)]
pub enum Target {
    Postgres { dsn: String },
}

/// The loaded configuration: named sources and named targets.
#[derive(Debug, Clone)]
pub struct Config {
    pub sources: Vec<(String, Source)>,
    pub targets: Vec<(String, Target)>,
}

/// The first source bound to a name.
pub open spec fn source_lookup(s: Seq<(String, Source)>, name: Seq<char>) -> Option<Source>
    decreases s.len(),
{
    if s.len() == 0 {
        None
    } else if s[0].0@ == name {
        Some(s[0].1)
    } else {
        source_lookup(s.skip(1), name)
    }
}

/// The first target bound to a name.
pub open spec fn target_lookup(s: Seq<(String, Target)>, name: Seq<char>) -> Option<Target>
    decreases s.len(),
{
    if s.len() == 0 {
        None
    } else if s[0].0@ == name {
        Some(s[0].1)
    } else {
        target_lookup(s.skip(1), name)
    }
}

impl Config {
    /// Find a source by name.
    pub fn source(&self, name: &String) -> (r: Option<&Source>)
        ensures
            match r {
                Some(s) => source_lookup(self.sources@, name@) == Some(*s),
                None => source_lookup(self.sources@, name@) is None,
            },
    {
        let mut k: usize = 0;
        proof {
            assert(self.sources@.skip(0) =~= self.sources@);
        }
        while k < self.sources.len()
            invariant
                k <= self.sources@.len(),
                source_lookup(self.sources@, name@) == source_lookup(
                    self.sources@.skip(k as int),
                    name@,
                ),
            decreases self.sources@.len() - k,
        {
            proof {
                assert(self.sources@.skip(k as int)[0] == self.sources@[k as int]);
                assert(self.sources@.skip(k as int).skip(1) =~= self.sources@.skip(k as int + 1));
            }
            if self.sources[k].0.eq(name) {
                return Some(&self.sources[k].1);
            }
            k = k + 1;
        }
        proof {
            assert(self.sources@.skip(k as int).len() == 0);
        }
        None
    }

    /// Find a target by name.
    pub fn target(&self, name: &String) -> (r: Option<&Target>)
        ensures
            match r {
                Some(t) => target_lookup(self.targets@, name@) == Some(*t),
                None => target_lookup(self.targets@, name@) is None,
            },
    {
        let mut k: usize = 0;
        proof {
            assert(self.targets@.skip(0) =~= self.targets@);
        }
        while k < self.targets.len()
            invariant
                k <= self.targets@.len(),
                target_lookup(self.targets@, name@) == target_lookup(
                    self.targets@.skip(k as int),
                    name@,
                ),
            decreases self.targets@.len() - k,
        {
            proof {
                assert(self.targets@.skip(k as int)[0] == self.targets@[k as int]);
                assert(self.targets@.skip(k as int).skip(1) =~= self.targets@.skip(k as int + 1));
            }
            if self.targets[k].0.eq(name) {
                return Some(&self.targets[k].1);
            }
            k = k + 1;
        }
        proof {
            assert(self.targets@.skip(k as int).len() == 0);
        }
        None
    }
}

/// Fetching defaults for one run.
#[derive(Debug, Clone, Copy, PartialEq, Eq, Structural)]
pub struct FetchOpts {
    pub concurrency: usize,
    pub default_page_size: usize,
    pub fetch_batch_size: usize,
}

/// The fetching defaults.
pub fn create_fetch_options() -> (r: FetchOpts)
    ensures
        r.concurrency == CONCURRENCY,
        r.default_page_size == DEFAULT_PAGE_SIZE,
        r.fetch_batch_size == FETCH_BATCH_SIZE,
{
    FetchOpts {
        concurrency: CONCURRENCY,
        default_page_size: DEFAULT_PAGE_SIZE,
        fetch_batch_size: FETCH_BATCH_SIZE,
    }
}

/// The SQL and destination table of one query execution.
#[derive(Debug, Clone)]
pub struct QueryConfig {
    pub sql: String,
    pub dest_table: String,
}

/// How one run writes: which writer, under which mode.
pub struct WriteConfig<W> {
    pub writer: W,
    pub write_mode: WriteMode,
}

/// Writer construction options for one run.
#[derive(Debug, Clone)]
pub struct WriterOpts {
    pub dest_table: String,
    pub primary_key: Option<String>,
    pub batch_size: usize,
    pub sample_size: usize,
    pub auto_create: bool,
    pub auto_truncate: bool,
    pub truncate_first: bool,
    pub write_mode: WriteMode,
}

/// A connection that can build a writer for a run. The second result
/// says whether the destination must be truncated before the first
/// insert.
pub trait MakeWriter {
    type Writer;

    fn make_writer(&self, opts: &WriterOpts) -> Result<(Self::Writer, bool), ApitapError>;
}

/// An in-memory destination.
#[derive(Debug, Clone)]
pub struct MemTarget {
    pub name: String,
}

impl MakeWriter for MemTarget {
    type Writer = crate::writer::MemWriter;

    /// Build an in-memory writer on the destination table.
    fn make_writer(&self, opts: &WriterOpts) -> (r: Result<
        (crate::writer::MemWriter, bool),
        ApitapError,
    >)
        ensures
            match r {
                Ok(p) => {
                    &&& p.0.table_name@ == opts.dest_table@
                    &&& p.0.rows@.len() == 0
                    &&& (match opts.primary_key {
                        Some(k) => p.0.pk_name matches Some(n) && n@ == k@,
                        None => p.0.pk_name is None,
                    })
                    &&& p.1 == opts.truncate_first
                },
                Err(_) => false,
            },
    {
        Ok(
            (
                crate::writer::MemWriter::new(
                    opts.dest_table.clone(),
                    match &opts.primary_key {
                        Some(k) => Some(k.clone()),
                        None => None,
                    },
                ),
                opts.truncate_first,
            ),
        )
    }
}

/// The destination table of a source; a source without one is refused
/// before any request is made.
pub fn extract_destination_table(source: &Source, source_name: &String) -> (r: Result<
    String,
    ApitapError,
>)
    ensures
        match r {
            Ok(t) => source.table_destination_name matches Some(n) && t@ == n@,
            Err(e) => {
                &&& source.table_destination_name is None
                &&& e matches ApitapError::ConfigError(m)
                &&& m@ == "table_destination_name is required for source: "@ + source_name@
            },
        },
{
    match &source.table_destination_name {
        Some(t) => Ok(t.clone()),
        None => Err(
            ApitapError::ConfigError(
                String::from_str("table_destination_name is required for source: ").concat(
                    source_name.as_str(),
                ),
            ),
        ),
    }
}

/// Writer options for one run: merge into the destination table on the
/// source's primary key, fifty rows a statement, sampling ten batches
/// for table creation.
pub fn create_writer_options(dest_table: &String, source: &Source) -> (r: WriterOpts)
    ensures
        r.dest_table@ == dest_table@,
        (match source.primary_key_in_dest {
            Some(k) => r.primary_key matches Some(p) && p@ == k@,
            None => r.primary_key is None,
        }),
        r.batch_size == 50,
        r.sample_size == 10,
        r.auto_create,
        !r.auto_truncate,
        !r.truncate_first,
        r.write_mode == WriteMode::Merge,
{
    WriterOpts {
        dest_table: dest_table.clone(),
        primary_key: match &source.primary_key_in_dest {
            Some(k) => Some(k.clone()),
            None => None,
        },
        batch_size: 50,
        sample_size: 10,
        auto_create: true,
        auto_truncate: false,
        truncate_first: false,
        write_mode: WriteMode::Merge,
    }
}

/// The error for a name missing from the configuration.
pub fn create_config_error(config_type: &str, name: &str) -> (r: ApitapError)
    ensures
        r matches ApitapError::ConfigError(m) && m@ == config_type@ + " not found in config: "@
            + name@,
{
    let msg = String::from_str(config_type);
    let msg = msg.concat(" not found in config: ");
    let msg = msg.concat(name);
    ApitapError::ConfigError(msg)
}

/// The lines logged when a run of all modules starts.
pub fn log_pipeline_start() -> (r: Vec<String>)
    ensures
        r@.len() == 3,
        r@[1]@ == "Starting pipeline execution"@,
{
    let mut v: Vec<String> = Vec::new();
    v.push(String::from_str("==========================================================="));
    v.push(String::from_str("Starting pipeline execution"));
    v.push(String::from_str("==========================================================="));
    v
}

/// The lines logged when every module has completed, with the total
/// duration in milliseconds.
pub fn log_pipeline_complete(duration_ms: u64) -> (r: Vec<String>)
    ensures
        r@.len() == 3,
        r@[1]@ == "All pipelines completed in "@ + crate::strutil::dec_chars(duration_ms as nat)
            + "ms"@,
{
    let mut v: Vec<String> = Vec::new();
    v.push(String::from_str("==========================================================="));
    let line = String::from_str("All pipelines completed in ").concat(
        crate::strutil::u64_to_string(duration_ms).as_str(),
    );
    let line = line.concat("ms");
    v.push(line);
    v.push(String::from_str("==========================================================="));
    v
}

/// One configured parameter whose value does not substitute.
pub open spec fn param_subst_fails(ps: Seq<QueryParam>, j: int, t: Date) -> bool {
    0 <= j < ps.len() && subst_from(ps[j].value@, 0, t) is Err
}

/// Substituted request parameters: each configured value with its
/// template calls evaluated against one reading of today's date.
pub fn clean_param(params: &Option<Vec<QueryParam>>) -> (r: Result<
    Vec<(String, String)>,
    ApitapError,
>)
    ensures
        exists|t: Date|
            #[trigger] t.valid() && (match r {
                Ok(v) => match params {
                    Some(ps) => v@.len() == ps@.len() && (forall|j: int|
                        0 <= j < v@.len() ==> (#[trigger] v@[j]).0@ == ps@[j].key@ && subst_from(
                            ps@[j].value@,
                            0,
                            t,
                        ) == Ok::<Seq<char>, Seq<char>>(v@[j].1@)),
                    None => v@.len() == 0,
                },
                Err(e) => e is PipelineError && (match params {
                    Some(ps) => exists|j: int| #[trigger] param_subst_fails(ps@, j, t),
                    None => false,
                }),
            }),
{
    let today = local_today();
    let mut out: Vec<(String, String)> = Vec::new();
    match params {
        Some(ps) => {
            let mut i: usize = 0;
            while i < ps.len()
                invariant
                    i <= ps@.len(),
                    today.valid(),
                    (params matches Some(psr) && psr@ == ps@),
                    out@.len() == i,
                    forall|j: int|
                        0 <= j < i ==> (#[trigger] out@[j]).0@ == ps@[j].key@ && subst_from(
                            ps@[j].value@,
                            0,
                            today,
                        ) == Ok::<Seq<char>, Seq<char>>(out@[j].1@),
                decreases ps@.len() - i,
            {
                let p = &ps[i];
                match substitute_templates_with(p.value.as_str(), &today) {
                    Ok(v) => {
                        out.push((p.key.clone(), v));
                    },
                    Err(e) => {
                        proof {
                            assert(param_subst_fails(ps@, i as int, today));
                        }
                        return Err(e);
                    },
                }
                i = i + 1;
            }
            Ok(out)
        },
        None => Ok(out),
    }
}

/// What `url::Url::parse` makes of a text: the normalized serialization
/// or the parse error's message, a function of the text alone.
pub uninterp spec fn url_parse(s: Seq<char>) -> Result<Seq<char>, Seq<char>>;

/// Relies on `url::Url::parse` and `Url::as_str`: parsing either yields
/// a URL whose serialization depends on the input text alone, or a
/// parse error whose message does.
#[verifier::external_body]
fn parse_url(s: &str) -> (r: Result<String, String>)
    ensures
        match r {
            Ok(u) => url_parse(s@) == Ok::<Seq<char>, Seq<char>>(u@),
            Err(e) => url_parse(s@) == Err::<Seq<char>, Seq<char>>(e@),
        },
{
    match url::Url::parse(s) {
        Ok(u) => Ok(u.as_str().to_owned()),
        Err(e) => Err(format!("{}", e)),
    }
}

/// Headers with their values resolved against the variables.
pub open spec fn headers_resolved(
    hs: Seq<Header>,
    env: Seq<(String, String)>,
    out: Seq<(String, String)>,
) -> bool {
    out.len() == hs.len() && forall|j: int|
        0 <= j < hs.len() ==> (#[trigger] out[j]).0@ == hs[j].key@ && envsub_from(
            hs[j].value@,
            0,
            env,
        ) == Ok::<Seq<char>, Seq<char>>(out[j].1@)
}

/// Everything one scheduled run needs before its first request.
#[derive(Debug, Clone)]
pub struct JobPlan {
    pub url: String,
    pub headers: Vec<(String, String)>,
    pub data_path: Option<String>,
    pub query_params: Option<Vec<QueryParam>>,
    pub pagination: Option<Pagination>,
    pub retry: Retry,
    pub dest_table: String,
    pub sql: String,
    pub writer_opts: WriterOpts,
    pub target: Target,
}

/// When a run can be prepared at all: the source and target exist, the
/// URL and every header value resolve against the variables, the URL
/// parses, and the source names its destination table.
pub open spec fn job_ok_conditions(
    cfg: &Config,
    source_name: Seq<char>,
    sink_name: Seq<char>,
    env: Seq<(String, String)>,
) -> bool {
    &&& source_lookup(cfg.sources@, source_name) matches Some(src)
    &&& target_lookup(cfg.targets@, sink_name) is Some
    &&& {
        let src = source_lookup(cfg.sources@, source_name)->Some_0;
        &&& (match src.headers {
            Some(hs) => forall|j: int|
                0 <= j < hs@.len() ==> envsub_from((#[trigger] hs@[j]).value@, 0, env) is Ok,
            None => true,
        })
        &&& envsub_from(src.url@, 0, env) is Ok
        &&& url_parse(envsub_from(src.url@, 0, env)->Ok_0) is Ok
        &&& src.table_destination_name is Some
    }
}

/// One header's value fails to resolve, raising the given message.
pub open spec fn header_fails(
    hs: Seq<Header>,
    j: int,
    env: Seq<(String, String)>,
    m: Seq<char>,
) -> bool {
    0 <= j < hs.len() && (envsub_from(hs[j].value@, 0, env) matches Err(n) && m
        == "Environment variable not found: "@ + n)
}

/// Which error a failed preparation raises, tied to its cause: a
/// missing source or target is a configuration error naming it; an
/// unresolved header or URL variable is a configuration error naming
/// the variable; an unparsable URL carries the parser's message; a
/// source without a destination table is a configuration error naming
/// the source.
pub open spec fn prepare_err_cause(
    cfg: &Config,
    source_name: Seq<char>,
    sink_name: Seq<char>,
    env: Seq<(String, String)>,
    e: ApitapError,
) -> bool {
    if source_lookup(cfg.sources@, source_name) is None {
        e matches ApitapError::ConfigError(m) && m@ == "source"@ + " not found in config: "@
            + source_name
    } else if target_lookup(cfg.targets@, sink_name) is None {
        e matches ApitapError::ConfigError(m) && m@ == "target"@ + " not found in config: "@
            + sink_name
    } else {
        let src = source_lookup(cfg.sources@, source_name)->Some_0;
        ||| (e matches ApitapError::ConfigError(m) && src.headers is Some && (exists|j: int|
            #[trigger] header_fails(src.headers->Some_0@, j, env, m@)))
        ||| (e matches ApitapError::ConfigError(m) && (envsub_from(src.url@, 0, env) matches Err(
            n,
        ) && m@ == "Environment variable not found: "@ + n))
        ||| (e matches ApitapError::UrlParseError(m) && envsub_from(src.url@, 0, env) is Ok
            && url_parse(envsub_from(src.url@, 0, env)->Ok_0) == Err::<Seq<char>, Seq<char>>(m@))
        ||| (e matches ApitapError::ConfigError(m) && src.table_destination_name is None && m@
            == "table_destination_name is required for source: "@ + source_name)
    }
}

/// A prepared plan agrees with the configuration: the source was found
/// and its URL and headers resolved and parsed, the destination table
/// was set, and the SQL references it in place of the source name.
pub open spec fn plan_matches(
    cfg: &Config,
    source_name: Seq<char>,
    sink_name: Seq<char>,
    sql_template: Seq<char>,
    env: Seq<(String, String)>,
    plan: JobPlan,
) -> bool {
    &&& source_lookup(cfg.sources@, source_name) matches Some(src)
    &&& target_lookup(cfg.targets@, sink_name) matches Some(tgt)
    &&& {
        let src = source_lookup(cfg.sources@, source_name)->Some_0;
        &&& (match src.headers {
            Some(hs) => headers_resolved(hs@, env, plan.headers@),
            None => plan.headers@.len() == 0,
        })
        &&& envsub_from(src.url@, 0, env) matches Ok(u)
        &&& url_parse(envsub_from(src.url@, 0, env)->Ok_0) matches Ok(nu) && plan.url@ == nu
        &&& src.table_destination_name matches Some(t) && plan.dest_table@ == t@
        &&& plan.sql@ == replace_all_spec(sql_template, source_name, plan.dest_table@)
        &&& plan.retry == src.retry
        &&& plan.writer_opts.dest_table@ == plan.dest_table@
        &&& plan.writer_opts.write_mode == WriteMode::Merge
    }
}

/// Prepare one scheduled run: resolve the source and the sink, resolve
/// `${VAR}` references in the URL and header values, parse the URL,
/// take the destination table, and rewrite the rendered SQL onto it.
///
/// Every configuration failure is raised here, before any request: a
/// missing source or target, a header or URL naming an unset variable,
/// an unparsable URL, a source without a destination table.
pub fn prepare_job(
    cfg: &Config,
    source_name: &String,
    sink_name: &String,
    sql_template: &String,
    env: &Vec<(String, String)>,
) -> (r: Result<JobPlan, ApitapError>)
    ensures
        r is Ok <==> job_ok_conditions(cfg, source_name@, sink_name@, env@),
        match r {
            Ok(plan) => plan_matches(cfg, source_name@, sink_name@, sql_template@, env@, plan),
            Err(e) => prepare_err_cause(cfg, source_name@, sink_name@, env@, e),
        },
{
    let source = match cfg.source(source_name) {
        Some(s) => s,
        None => {
            return Err(create_config_error("source", source_name.as_str()));
        },
    };
    let target = match cfg.target(sink_name) {
        Some(t) => t,
        None => {
            return Err(create_config_error("target", sink_name.as_str()));
        },
    };
    let mut headers: Vec<(String, String)> = Vec::new();
    match &source.headers {
        Some(hs) => {
            let mut i: usize = 0;
            while i < hs.len()
                invariant
                    i <= hs@.len(),
                    headers@.len() == i,
                    source_lookup(cfg.sources@, source_name@) == Some(*source),
                    target_lookup(cfg.targets@, sink_name@) is Some,
                    (source.headers matches Some(hsr) && hsr@ == hs@),
                    forall|j: int|
                        0 <= j < i ==> (#[trigger] headers@[j]).0@ == hs@[j].key@ && envsub_from(
                            hs@[j].value@,
                            0,
                            env@,
                        ) == Ok::<Seq<char>, Seq<char>>(headers@[j].1@),
                decreases hs@.len() - i,
            {
                let h = &hs[i];
                match substitute_env_vars(h.value.as_str(), env) {
                    Ok(v) => {
                        headers.push((h.key.clone(), v));
                    },
                    Err(e) => {
                        proof {
                            assert(envsub_from(hs@[i as int].value@, 0, env@) is Err);
                            assert(!job_ok_conditions(cfg, source_name@, sink_name@, env@));
                            assert(header_fails(
                                source.headers->Some_0@,
                                i as int,
                                env@,
                                e->ConfigError_0@,
                            ));
                        }
                        return Err(e);
                    },
                }
                i = i + 1;
            }
            proof {
                assert forall|j: int|
                    0 <= j < hs@.len() implies envsub_from(
                    (#[trigger] hs@[j]).value@,
                    0,
                    env@,
                ) is Ok by {
                    let p = headers@[j];
                    assert(envsub_from(hs@[j].value@, 0, env@) == Ok::<Seq<char>, Seq<char>>(
                        headers@[j].1@,
                    ));
                }
            }
        },
        None => {},
    }
    let url_resolved = match substitute_env_vars(source.url.as_str(), env) {
        Ok(u) => u,
        Err(e) => {
            return Err(e);
        },
    };
    let url = match parse_url(url_resolved.as_str()) {
        Ok(u) => u,
        Err(m) => {
            return Err(ApitapError::UrlParseError(m));
        },
    };
    let dest_table = match extract_destination_table(source, source_name) {
        Ok(t) => t,
        Err(e) => {
            return Err(e);
        },
    };
    let tmpl = str_to_chars(sql_template.as_str());
    let from = str_to_chars(source_name.as_str());
    let to = str_to_chars(dest_table.as_str());
    let sql_chars = replace_all_chars(&tmpl, &from, &to);
    let sql = chars_to_string(&sql_chars);
    let writer_opts = create_writer_options(&dest_table, source);
    Ok(
        JobPlan {
            url,
            headers,
            data_path: match &source.data_path {
                Some(p) => Some(p.clone()),
                None => None,
            },
            query_params: match &source.query_params {
                Some(ps) => Some(clone_params(ps)),
                None => None,
            },
            pagination: clone_pagination(&source.pagination),
            retry: source.retry,
            dest_table,
            sql,
            writer_opts,
            target: match target {
                Target::Postgres { dsn } => Target::Postgres { dsn: dsn.clone() },
            },
        },
    )
}

/// A copy of the configured parameters.
fn clone_params(ps: &Vec<QueryParam>) -> (r: Vec<QueryParam>)
    ensures
        r@.len() == ps@.len(),
        forall|j: int|
            0 <= j < ps@.len() ==> (#[trigger] r@[j]).key@ == ps@[j].key@ && r@[j].value@ == ps@[
                j].value@,
{
    let mut r: Vec<QueryParam> = Vec::new();
    let mut i: usize = 0;
    while i < ps.len()
        invariant
            i <= ps@.len(),
            r@.len() == i,
            forall|j: int|
                0 <= j < i ==> (#[trigger] r@[j]).key@ == ps@[j].key@ && r@[j].value@ == ps@[
                    j].value@,
        decreases ps@.len() - i,
    {
        r.push(QueryParam { key: ps[i].key.clone(), value: ps[i].value.clone() });
        i = i + 1;
    }
    r
}

/// A copy of the configured pagination.
fn clone_pagination(p: &Option<Pagination>) -> (r: Option<Pagination>)
    ensures
        r is Some <==> p is Some,
{
    match p {
        Some(Pagination::LimitOffset { limit_param, offset_param }) => Some(
            Pagination::LimitOffset {
                limit_param: limit_param.clone(),
                offset_param: offset_param.clone(),
            },
        ),
        Some(Pagination::PageNumber { page_param, per_page_param }) => Some(
            Pagination::PageNumber {
                page_param: page_param.clone(),
                per_page_param: per_page_param.clone(),
            },
        ),
        Some(Pagination::PageOnly { page_param }) => Some(
            Pagination::PageOnly { page_param: page_param.clone() },
        ),
        Some(Pagination::Cursor { cursor_param, page_size_param }) => Some(
            Pagination::Cursor {
                cursor_param: cursor_param.clone(),
                page_size_param: page_size_param.clone(),
            },
        ),
        Some(Pagination::Default) => Some(Pagination::Default),
        None => None,
    }
}

/// How one fetch runs under the configured pagination.
#[derive(Debug, Clone, Copy, PartialEq, Eq, Structural)]
pub enum FetchDecision {
    /// Pages are requested with the given page size.
    Run { page_size: u64 },
    /// The strategy is accepted but issues no pages: an empty run.
    EmptyRun,
}

/// Decide how the fetch runs: limit/offset and page-number pagination
/// run with the default page size, the reserved strategies yield an
/// empty run, and an absent or default strategy is a configuration
/// error. A page size that does not fit the pagination counter is
/// refused here.
pub fn plan_fetch(pagination: &Option<Pagination>, opts: &FetchOpts) -> (r: Result<
    FetchDecision,
    ApitapError,
>)
    ensures
        match r {
            Ok(d) => match d {
                FetchDecision::Run { page_size } => (pagination matches Some(p) && (p
                    is LimitOffset || p is PageNumber)) && opts.default_page_size
                    <= u64::MAX && page_size == opts.default_page_size,
                FetchDecision::EmptyRun => pagination matches Some(p) && (p is PageOnly || p
                    is Cursor),
            },
            Err(e) => {
                ||| ((pagination matches Some(p) && (p is LimitOffset || p is PageNumber))
                    && opts.default_page_size > u64::MAX && (e matches ApitapError::ConfigError(
                    m,
                ) && m@ == "Invalid page size: "@ + crate::strutil::dec_chars(
                    opts.default_page_size as nat,
                ) + " (must fit in u64)"@))
                ||| ((pagination is None || pagination matches Some(Pagination::Default)) && (e
                    matches ApitapError::PaginationError(m) && m@
                    == "no supported pagination configured"@))
            },
        },
{
    match pagination {
        Some(Pagination::LimitOffset { .. }) | Some(Pagination::PageNumber { .. }) => {
            if (opts.default_page_size as u128) > (u64::MAX as u128) {
                let digits = crate::strutil::u128_to_chars(opts.default_page_size as u128);
                let msg = String::from_str("Invalid page size: ").concat(
                    chars_to_string(&digits).as_str(),
                );
                let msg = msg.concat(" (must fit in u64)");
                return Err(ApitapError::ConfigError(msg));
            }
            Ok(FetchDecision::Run { page_size: opts.default_page_size as u64 })
        },
        Some(Pagination::PageOnly { .. }) | Some(Pagination::Cursor { .. }) => Ok(
            FetchDecision::EmptyRun,
        ),
        Some(Pagination::Default) | None => Err(
            ApitapError::PaginationError(String::from_str("no supported pagination configured")),
        ),
    }
}

} // verus!
