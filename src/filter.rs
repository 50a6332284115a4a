use vstd::prelude::*;

use crate::model::{ProcessInfo, ProcessNode};
use crate::text::{chars_of, contains, decimal, decimal_chars, is_substring, lower_of, lowercase};

verus! {

/// The conditions a process must meet to be listed; all that are set must hold.
#[derive(Clone, Debug)]
pub struct FilterCriteria {
    /// Matched, ignoring case, against the name, or against the decimal pid.
    pub search_query: Vec<char>,
    /// Matched against the decimal user id.
    pub user_filter: Option<Vec<char>>,
    /// Matched, ignoring case, against the status text.
    pub status_filter: Option<Vec<char>>,
    /// Least cpu usage, in hundredths of a percent.
    pub cpu_threshold: Option<u32>,
    /// Least memory, in bytes.
    pub memory_threshold: Option<u64>,
}

impl FilterCriteria {
    /// No condition at all.
    pub fn none() -> (r: FilterCriteria)
        ensures
            r.is_empty(),
            !r.is_active(),
    {
        FilterCriteria {
            search_query: Vec::new(),
            user_filter: None,
            status_filter: None,
            cpu_threshold: None,
            memory_threshold: None,
        }
    }

    /// No condition set, and an empty search text.
    pub open spec fn is_empty(&self) -> bool {
        self.search_query@.len() == 0 && self.user_filter is None && self.status_filter is None
            && self.cpu_threshold is None && self.memory_threshold is None
    }

    pub open spec fn is_active(&self) -> bool {
        self.search_query@.len() > 0 || self.user_filter is Some || self.status_filter is Some
            || self.cpu_threshold is Some || self.memory_threshold is Some
    }

    /// Whether one process meets every condition that is set.
    pub open spec fn accepts(&self, info: ProcessInfo) -> bool {
        &&& (self.search_query@.len() > 0 ==> (
            is_substring(lower_of(self.search_query@), lower_of(info.name@))
            || is_substring(self.search_query@, decimal(info.pid as nat))))
        &&& (self.user_filter matches Some(u) ==> (info.user_id matches Some(uid)
            && is_substring(u@, decimal(uid as nat))))
        &&& (self.status_filter matches Some(s) ==> is_substring(lower_of(s@), lower_of(info.status@)))
        &&& (self.cpu_threshold matches Some(t) ==> info.cpu_usage >= t)
        &&& (self.memory_threshold matches Some(t) ==> info.memory >= t)
    }

    /// The search test on already lowercased text: the lowercased query occurs in the
    /// lowercased name, or the query occurs in the decimal pid.
    pub fn search_hit(name_lower: &Vec<char>, query_lower: &Vec<char>, pid: u32, query: &Vec<char>) -> (r: bool)
        ensures
            r == (is_substring(query_lower@, name_lower@) || is_substring(query@, decimal(pid as nat))),
    {
        contains(name_lower, query_lower) || contains(&decimal_chars(pid as u64), query)
    }

    /// Checks one process against every condition that is set.
    pub fn accepts_info(&self, info: &ProcessInfo) -> (r: bool)
        ensures
            r == self.accepts(*info),
    {
        if self.search_query.len() > 0 {
            let query_lower = lowercase(&self.search_query);
            let name_lower = lowercase(&chars_of(info.name.as_str()));
            if !FilterCriteria::search_hit(&name_lower, &query_lower, info.pid, &self.search_query) {
                return false;
            }
        }
        match &self.user_filter {
            Some(user_filter) => {
                match info.user_id {
                    Some(uid) => {
                        if !contains(&decimal_chars(uid as u64), user_filter) {
                            return false;
                        }
                    },
                    None => {
                        return false;
                    },
                }
            },
            None => {},
        }
        match &self.status_filter {
            Some(status_filter) => {
                let status_lower = lowercase(&chars_of(info.status.as_str()));
                let filter_lower = lowercase(status_filter);
                if !contains(&status_lower, &filter_lower) {
                    return false;
                }
            },
            None => {},
        }
        match self.cpu_threshold {
            Some(t) => {
                if info.cpu_usage < t {
                    return false;
                }
            },
            None => {},
        }
        match self.memory_threshold {
            Some(t) => {
                if info.memory < t {
                    return false;
                }
            },
            None => {},
        }
        true
    }

    /// Whether any condition is set.
    pub fn any_active(&self) -> (r: bool)
        ensures
            r == self.is_active(),
    {
        self.search_query.len() > 0 || self.user_filter.is_some() || self.status_filter.is_some()
            || self.cpu_threshold.is_some() || self.memory_threshold.is_some()
    }
}

/// The node or one of its descendants meets the criteria.
pub open spec fn subtree_matches(f: FilterCriteria, n: ProcessNode) -> bool
    decreases n, n.children@.len() + 1,
{
    f.accepts(n.info) || children_match(f, n, n.children@.len())
}

/// One of the first `k` children of `n`, or a descendant of one, meets the criteria.
pub open spec fn children_match(f: FilterCriteria, n: ProcessNode, k: nat) -> bool
    decreases n, k,
{
    if k == 0 || k > n.children@.len() {
        false
    } else {
        children_match(f, n, (k - 1) as nat) || subtree_matches(f, n.children@[k - 1])
    }
}

} // verus!
