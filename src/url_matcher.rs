//! Splitting a URL, or a service DNS name, into its parts.
use vstd::prelude::*;
use crate::pattern::{captures, group_at, group_of, is_match, regex_captures, regex_is_match};
use crate::text::{chars_of, find_last, last_index_of, opt_text, slice_text};

verus! {

/// Splits URLs and service names.
#[derive(Debug)]
pub struct UrlMatcher {}

#[derive(Debug, PartialEq)]
pub struct ExplodedUrl {
    pub host: Option<String>,
    /// With its leading `:`, or empty.
    pub port: Option<String>,
    pub path: Option<String>,
    pub service_name: Option<String>,
    pub namespace: Option<String>,
    pub cluster_name: Option<String>,
}

/// A scheme followed by `://`, anywhere in the text.
pub open spec fn scheme_pattern() -> Seq<char> {
    "[a-z]+://.*"@
}

/// Host, port (digits and colons) and the rest, after `://`.
pub open spec fn url_pattern() -> Seq<char> {
    "://([^:/]*)([:0-9]*)(.*)"@
}

/// `<name>.svc[.<cluster>]`
pub open spec fn service_pattern() -> Seq<char> {
    "(.*).svc[\\.]*(.*)"@
}

/// The text with `://` put in front where it has no scheme.
pub open spec fn with_scheme(url: Seq<char>) -> Seq<char> {
    if regex_is_match(scheme_pattern(), url) {
        url
    } else {
        "://"@ + url
    }
}

/// A full service name split at its last `.` into service and namespace.
pub open spec fn service_parts(full: Seq<char>) -> (Seq<char>, Seq<char>) {
    let d = match last_index_of(full, '.') {
        Some(i) => i,
        None => 0,
    };
    let from = if d + 1 <= full.len() {
        d + 1
    } else {
        full.len() as int
    };
    (full.take(d), full.skip(from))
}

/// Host, port and path of a URL: groups 1, 2 and 3 of the URL pattern.
pub open spec fn url_part(url: Seq<char>, i: int) -> Option<Seq<char>> {
    group_of(regex_captures(url_pattern(), with_scheme(url)), i)
}

/// Service, namespace and cluster of a service DNS name, where its host matches the service pattern.
pub open spec fn service_of(url: Seq<char>) -> Option<(Seq<char>, Seq<char>, Option<Seq<char>>)> {
    match url_part(url, 1) {
        Some(host) => {
            let svc = regex_captures(service_pattern(), host);
            match group_of(svc, 1) {
                Some(full) => Some((service_parts(full).0, service_parts(full).1, group_of(svc, 2))),
                None => None,
            }
        },
        None => None,
    }
}

proof fn lemma_last_index_in_range(s: Seq<char>, c: char)
    ensures
        last_index_of(s, c) matches Some(i) ==> 0 <= i < s.len(),
    decreases s.len(),
{
    if s.len() > 0 {
        lemma_last_index_in_range(s.drop_last(), c);
    }
}

impl UrlMatcher {
    pub fn new() -> (r: UrlMatcher) {
        UrlMatcher {  }
    }

    /// Splits `url` into host, port and path. Where `is_service`, the host is further read as
    /// `<service>.<namespace>.svc[.<cluster>]`.
    pub fn explode_url(&self, url: &str, is_service: bool) -> (r: ExplodedUrl)
        ensures
            opt_text(r.host) == url_part(url@, 1),
            opt_text(r.port) == url_part(url@, 2),
            opt_text(r.path) == url_part(url@, 3),
            is_service ==> match service_of(url@) {
                Some((svc, ns, cluster)) => {
                    &&& opt_text(r.service_name) == Some(svc)
                    &&& opt_text(r.namespace) == Some(ns)
                    &&& opt_text(r.cluster_name) == cluster
                },
                None => r.service_name is None && r.namespace is None && r.cluster_name is None,
            },
            !is_service ==> r.service_name is None && r.namespace is None && r.cluster_name is None,
    {
        let full_url = if is_match("[a-z]+://.*", url) {
            url.to_owned()
        } else {
            let s = "://".to_owned();
            s.concat(url)
        };
        let main = captures("://([^:/]*)([:0-9]*)(.*)", full_url.as_str());
        let host = group_at(&main, 1);
        let port = group_at(&main, 2);
        let path = group_at(&main, 3);
        if !is_service {
            return ExplodedUrl {
                host,
                port,
                path,
                service_name: None,
                namespace: None,
                cluster_name: None,
            };
        }
        let (service_name, namespace, cluster_name) = match &host {
            Some(h) => {
                let svc = captures("(.*).svc[\\.]*(.*)", h.as_str());
                match group_at(&svc, 1) {
                    Some(full) => {
                        let chars = chars_of(full.as_str());
                        let d = match find_last(&chars, '.') {
                            Some(i) => i,
                            None => 0,
                        };
                        let from = if d < chars.len() {
                            d + 1
                        } else {
                            chars.len()
                        };
                        proof {
                            lemma_last_index_in_range(full@, '.');
                        }
                        let service = slice_text(full.as_str(), 0, d);
                        let namespace = slice_text(full.as_str(), from, chars.len());
                        assert(service@ =~= service_parts(full@).0);
                        assert(namespace@ =~= service_parts(full@).1);
                        (Some(service), Some(namespace), group_at(&svc, 2))
                    },
                    None => (None, None, None),
                }
            },
            None => (None, None, None),
        };
        ExplodedUrl { host, port, path, service_name, namespace, cluster_name }
    }
}

} // verus!
