//! Parsing one sidecar log line into an `EnvoyLog`.
use vstd::prelude::*;
use crate::envoy_log::EnvoyLog;
use crate::pattern::{captures, group_at, group_of, groups_view, regex_captures, regex_replace, replace_first};
use crate::request_type::{log_type_named, method_named, LogType, RequestType};
use crate::text::{contains_str, has_substring, opt_text, split_on, split_tabs, text_views, upper_of};

verus! {

/// The seconds since the epoch and the milliseconds within the second of an RFC 3339 time
/// read without its offset.
pub uninterp spec fn rfc3339_time(s: Seq<char>) -> Option<(i64, u16)>;

/// Relies on `time::PrimitiveDateTime::parse` with the `Rfc3339` description, read as UTC by
/// `assume_utc`, and on `unix_timestamp` and `millisecond` (documented to be below 1000).
#[verifier::external_body]
fn parse_rfc3339(s: &str) -> (r: Option<(i64, u16)>)
    ensures
        r == rfc3339_time(s@),
        r matches Some((_, ms)) ==> ms < 1000,
{
    let t = time::PrimitiveDateTime::parse(s, &time::format_description::well_known::Rfc3339).ok()?;
    let utc = t.assume_utc();
    Some((utc.unix_timestamp(), utc.millisecond()))
}

/// Parses sidecar log lines.
#[derive(Debug)]
pub struct LogMatcher {}

/// Why a log line could not be read.
#[derive(Debug)]
pub struct LogParsingError {
    pub cause: String,
}

impl LogParsingError {
    pub fn new(cause: &str) -> (r: LogParsingError)
        ensures
            r.cause@ == cause@,
    {
        LogParsingError { cause: cause.to_owned() }
    }
}

/// `[Request|Response <request-id>/<trace-id>/<span-id>/<parent-span-id>]`
pub open spec fn metadata_pattern() -> Seq<char> {
    "\\[(Request|Response) ([[:alnum:]-_]+)/([[:alnum:]_]+)/([[:alnum:]_]+)/([[:alnum:]_]+)\\]"@
}

pub open spec fn status_pattern() -> Seq<char> {
    "\\[Status\\] ([0-9]+)"@
}

pub open spec fn path_pattern() -> Seq<char> {
    "(GET|POST|PUT|DELETE|PATCH|HEAD|OPTIONS) ([^\\]]+)"@
}

pub open spec fn content_type_pattern() -> Seq<char> {
    "\\[ContentType ([^\\]]*)]"@
}

pub open spec fn body_pattern() -> Seq<char> {
    "\\[Body\\] (.*)"@
}

/// The milliseconds since the epoch of a time, where it is not before the epoch and fits.
pub open spec fn epoch_millis(t: (i64, u16)) -> Option<u64> {
    if 0 <= t.0 && t.0 * 1000 + t.1 <= u64::MAX {
        Some((t.0 * 1000 + t.1) as u64)
    } else {
        None
    }
}

/// All four ids of the metadata token are there.
pub open spec fn has_ids(meta: Option<Seq<Option<Seq<char>>>>) -> bool {
    forall|g: int| 1 <= g <= 5 ==> (#[trigger] group_of(meta, g)).is_some()
}

pub open spec fn method_of(m: Option<Seq<char>>) -> Option<RequestType> {
    match m {
        Some(t) => method_named(upper_of(t)),
        None => None,
    }
}

/// What parsing a line gives: the log, or the cause of the failure.
pub open spec fn parsed_as(line: Seq<char>, r: Result<EnvoyLog, LogParsingError>) -> bool {
    let f = split_on(line, '\t');
    if f.len() < 4 {
        r matches Err(e) && e.cause@ == "incorrect log tokens"@
    } else if rfc3339_time(f[0]).is_none() || epoch_millis(rfc3339_time(f[0]).unwrap()).is_none() {
        r matches Err(e) && e.cause@ == "incorrect timestamp"@
    } else {
        let meta = regex_captures(metadata_pattern(), f[3]);
        let path = regex_captures(path_pattern(), f[3]);
        if !has_ids(meta) {
            r matches Err(e) && e.cause@ == "incorrect metadata tokens"@
        } else if log_type_named(upper_of(group_of(meta, 1).unwrap())).is_none() {
            r matches Err(e) && e.cause@ == "incorrect log type"@
        } else {
            r matches Ok(l) && {
                &&& l.namespace@ == f[1]
                &&& l.pod_name@ == f[2]
                &&& l.timestamp == epoch_millis(rfc3339_time(f[0]).unwrap()).unwrap()
                &&& l.log_type == log_type_named(upper_of(group_of(meta, 1).unwrap())).unwrap()
                &&& l.request_id@ == group_of(meta, 2).unwrap()
                &&& l.trace_id@ == group_of(meta, 3).unwrap()
                &&& l.span_id@ == group_of(meta, 4).unwrap()
                &&& l.parent_span_id@ == group_of(meta, 5).unwrap()
                &&& opt_text(l.body) == group_of(regex_captures(body_pattern(), f[3]), 1)
                &&& opt_text(l.content_type) == group_of(
                    regex_captures(content_type_pattern(), f[3]),
                    1,
                )
                &&& opt_text(l.status) == group_of(regex_captures(status_pattern(), f[3]), 1)
                &&& l.method == method_of(group_of(path, 1))
                &&& opt_text(l.path) == group_of(path, 2)
            }
        }
    }
}

fn unwrap_group(c: &Option<Vec<Option<String>>>, i: usize) -> (r: String)
    requires
        group_of(groups_view(*c), i as int).is_some(),
    ensures
        r@ == group_of(groups_view(*c), i as int).unwrap(),
{
    match group_at(c, i) {
        Some(s) => s,
        None => String::new(),
    }
}

impl LogMatcher {
    pub fn new() -> (r: LogMatcher) {
        LogMatcher {  }
    }

    /// Reads `time \t namespace \t pod \t body`, where the body holds the bracketed tokens.
    pub fn parse_log(&self, log: String) -> (r: Result<EnvoyLog, LogParsingError>)
        ensures
            parsed_as(log@, r),
    {
        let splits = split_tabs(log.as_str());
        let ghost f = split_on(log@, '\t');
        if splits.len() < 4 {
            return Err(LogParsingError::new("incorrect log tokens"));
        }
        assert(splits@[0]@ == f[0] && splits@[1]@ == f[1] && splits@[2]@ == f[2] && splits@[3]@
            == f[3]) by {
            assert(text_views(splits@)[0] == splits@[0]@);
            assert(text_views(splits@)[1] == splits@[1]@);
            assert(text_views(splits@)[2] == splits@[2]@);
            assert(text_views(splits@)[3] == splits@[3]@);
        }
        let time = match parse_rfc3339(splits[0].as_str()) {
            Some((secs, ms)) => {
                if secs < 0 || secs as u64 > (u64::MAX - ms as u64) / 1000 {
                    return Err(LogParsingError::new("incorrect timestamp"));
                }
                assert((secs as u64) * 1000 + ms as u64 <= u64::MAX) by (nonlinear_arith)
                    requires
                        secs as u64 <= (u64::MAX - ms as u64) / 1000,
                ;
                (secs as u64) * 1000 + ms as u64
            },
            None => {
                return Err(LogParsingError::new("incorrect timestamp"));
            },
        };
        let body = splits[3].as_str();
        let meta = captures(
            "\\[(Request|Response) ([[:alnum:]-_]+)/([[:alnum:]_]+)/([[:alnum:]_]+)/([[:alnum:]_]+)\\]",
            body,
        );
        let g1 = group_at(&meta, 1);
        let g2 = group_at(&meta, 2);
        let g3 = group_at(&meta, 3);
        let g4 = group_at(&meta, 4);
        let g5 = group_at(&meta, 5);
        if g1.is_none() || g2.is_none() || g3.is_none() || g4.is_none() || g5.is_none() {
            return Err(LogParsingError::new("incorrect metadata tokens"));
        }
        assert(has_ids(groups_view(meta))) by {
            assert forall|g: int| 1 <= g <= 5 implies (#[trigger] group_of(groups_view(meta), g)).is_some() by {
                if g == 1 {} else if g == 2 {} else if g == 3 {} else if g == 4 {} else {}
            }
        }
        let kind = unwrap_group(&meta, 1);
        let log_type = match LogType::from_str(kind.as_str()) {
            Ok(t) => t,
            Err(_) => {
                return Err(LogParsingError::new("incorrect log type"));
            },
        };
        let body_caps = captures("\\[Body\\] (.*)", body);
        let ct_caps = captures("\\[ContentType ([^\\]]*)]", body);
        let status_caps = captures("\\[Status\\] ([0-9]+)", body);
        let path_caps = captures("(GET|POST|PUT|DELETE|PATCH|HEAD|OPTIONS) ([^\\]]+)", body);
        let method = match group_at(&path_caps, 1) {
            Some(m) => match RequestType::from_str(m.as_str()) {
                Ok(t) => Some(t),
                Err(_) => None,
            },
            None => None,
        };
        Ok(
            EnvoyLog {
                namespace: splits[1].clone(),
                pod_name: splits[2].clone(),
                request_id: unwrap_group(&meta, 2),
                trace_id: unwrap_group(&meta, 3),
                span_id: unwrap_group(&meta, 4),
                parent_span_id: unwrap_group(&meta, 5),
                log_type,
                timestamp: time,
                body: group_at(&body_caps, 1),
                content_type: group_at(&ct_caps, 1),
                status: group_at(&status_caps, 1),
                method,
                path: group_at(&path_caps, 2),
            },
        )
    }
}


/// The prefix the proxy writes before a script log message.
pub open spec fn log_prefix_pattern() -> Seq<char> {
    "\\twarning\\tenvoy (lua|wasm)\\t(script|wasm) log[^:]*: "@
}

/// A line of the proxy's log that carries a script message.
pub open spec fn is_script_line(l: Seq<char>) -> bool {
    has_substring(l, "script log: "@) || has_substring(l, "wasm log "@)
}

/// The line as the parser reads it: the proxy prefix replaced by a tab.
pub open spec fn stripped(l: Seq<char>) -> Seq<char> {
    regex_replace(log_prefix_pattern(), l, "\t"@)
}

/// The lines of a log text.
pub open spec fn lines_of(text: Seq<char>) -> Seq<Seq<char>> {
    split_on(text, '\n')
}

/// The logs read from the first `n` lines: script lines whose stripped form parses.
pub open spec fn logs_read(lines: Seq<Seq<char>>, logs: Seq<EnvoyLog>, n: int) -> bool
    decreases n,
{
    if n <= 0 {
        logs.len() == 0
    } else if is_script_line(lines[n - 1]) && exists|l: EnvoyLog| #[trigger] parsed_as(stripped(lines[n - 1]), Ok(l)) {
        logs.len() > 0 && parsed_as(stripped(lines[n - 1]), Ok(logs.last())) && logs_read(lines, logs.drop_last(), n - 1)
    } else {
        logs_read(lines, logs, n - 1)
    }
}

proof fn lemma_parsed_ok_unique(line: Seq<char>, l: EnvoyLog, e: LogParsingError)
    requires
        parsed_as(line, Ok(l)),
    ensures
        !parsed_as(line, Err(e)),
{
}

impl LogMatcher {
    /// Reads the sidecar logs out of a pod's log text: the lines holding `script log: ` or
    /// `wasm log `, with the proxy prefix cut down to a tab, that parse; other lines are dropped.
    pub fn parse_pod_logs(&self, text: &str) -> (r: Vec<EnvoyLog>)
        ensures
            logs_read(lines_of(text@), r@, lines_of(text@).len() as int),
    {
        let lines = crate::text::split_lines(text);
        let ghost ls = lines_of(text@);
        let mut out: Vec<EnvoyLog> = Vec::new();
        let mut i: usize = 0;
        while i < lines.len()
            invariant
                text_views(lines@) == ls,
                i <= lines@.len(),
                logs_read(ls, out@, i as int),
            decreases lines.len() - i,
        {
            let line = &lines[i];
            assert(text_views(lines@)[i as int] == line@);
            if contains_str(line.as_str(), "script log: ") || contains_str(line.as_str(), "wasm log ") {
                let s = replace_first(
                    "\\twarning\\tenvoy (lua|wasm)\\t(script|wasm) log[^:]*: ",
                    line.as_str(),
                    "\t",
                );
                match self.parse_log(s) {
                    Ok(l) => {
                        let ghost before = out@;
                        out.push(l);
                        assert(out@.drop_last() =~= before);
                    },
                    Err(e) => {
                        proof {
                            if exists|l: EnvoyLog| #[trigger] parsed_as(stripped(ls[i as int]), Ok(l)) {
                                let l = choose|l: EnvoyLog| #[trigger] parsed_as(stripped(ls[i as int]), Ok(l));
                                lemma_parsed_ok_unique(stripped(ls[i as int]), l, e);
                            }
                        }
                    },
                }
            }
            i += 1;
        }
        out
    }
}
} // verus!
