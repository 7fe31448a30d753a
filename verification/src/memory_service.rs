//! The requests made to an external long-term memory service: its
//! endpoints, its authorization header and the request bodies.
use crate::text::{chars_of, push_all, string_of};
use vstd::prelude::*;

verus! {

/// A request to search the memories.
#[derive(Debug, Clone, PartialEq, Eq)]
pub struct MemorySearchRequest {
    /// What to look for.
    pub query: String,
    /// At most this many results.
    pub limit: Option<usize>,
    /// Only memories with these tags.
    pub tags: Vec<String>,
}

/// A request to store a memory.
#[derive(Debug, Clone, PartialEq, Eq)]
pub struct MemoryStoreRequest {
    /// The memory's text.
    pub content: String,
    /// Its tags.
    pub tags: Vec<String>,
}

/// Where a memory service lives and how to authenticate to it.
#[derive(Debug, Clone)]
pub struct MemoryServiceTarget {
    /// The service's base URL, without trailing slashes.
    pub base_url: String,
    /// The key sent as a bearer token, if any.
    pub api_key: Option<String>,
}

/// `s` without its trailing `/` characters.
pub open spec fn trim_trailing_slashes(s: Seq<char>) -> Seq<char>
    decreases s.len(),
{
    if s.len() > 0 && s.last() == '/' {
        trim_trailing_slashes(s.drop_last())
    } else {
        s
    }
}

impl MemoryServiceTarget {
    /// The target for `base_url` (trailing slashes dropped) and an optional
    /// key.
    pub fn new(base_url: &str, api_key: Option<&str>) -> (r: Self)
        ensures
            r.base_url@ == trim_trailing_slashes(base_url@),
            match api_key {
                Some(k) => r.api_key matches Some(s) && s@ == k@,
                None => r.api_key is None,
            },
    {
        let cs = chars_of(base_url);
        let mut end = cs.len();
        assert(cs@.take(end as int) =~= cs@);
        while end > 0 && cs[end - 1] == '/'
            invariant
                end <= cs@.len(),
                trim_trailing_slashes(cs@) == trim_trailing_slashes(cs@.take(end as int)),
            decreases end,
        {
            assert(cs@.take(end as int).drop_last() =~= cs@.take(end - 1));
            end = end - 1;
        }
        let base = crate::text::slice_to_vec(cs.as_slice(), 0, end);
        let key = match api_key {
            Some(k) => Some(k.to_owned()),
            None => None,
        };
        MemoryServiceTarget { base_url: string_of(base.as_slice()), api_key: key }
    }

    fn endpoint(&self, path: &str) -> (r: String)
        ensures
            r@ == self.base_url@ + path@,
    {
        let mut out = chars_of(self.base_url.as_str());
        push_all(&mut out, chars_of(path).as_slice());
        string_of(out.as_slice())
    }

    /// `<base>/v1/memories/search`.
    pub fn search_url(&self) -> (r: String)
        ensures
            r@ == self.base_url@ + "/v1/memories/search"@,
    {
        self.endpoint("/v1/memories/search")
    }

    /// `<base>/v1/memories`.
    pub fn store_url(&self) -> (r: String)
        ensures
            r@ == self.base_url@ + "/v1/memories"@,
    {
        self.endpoint("/v1/memories")
    }

    /// `<base>/health`.
    pub fn health_url(&self) -> (r: String)
        ensures
            r@ == self.base_url@ + "/health"@,
    {
        self.endpoint("/health")
    }

    /// The `Authorization` header value, `Bearer <key>`, when a key is set.
    pub fn authorization(&self) -> (r: Option<String>)
        ensures
            match self.api_key {
                Some(k) => r matches Some(v) && v@ == "Bearer "@ + k@,
                None => r is None,
            },
    {
        match &self.api_key {
            Some(k) => {
                let mut out = chars_of("Bearer ");
                push_all(&mut out, chars_of(k.as_str()).as_slice());
                Some(string_of(out.as_slice()))
            },
            None => None,
        }
    }
}

/// The body of a search for `query` with at most `limit` results and no
/// tag filter.
pub fn search_request(query: &str, limit: usize) -> (r: MemorySearchRequest)
    ensures
        r.query@ == query@,
        r.limit == Some(limit),
        r.tags@.len() == 0,
{
    MemorySearchRequest { query: query.to_owned(), limit: Some(limit), tags: Vec::new() }
}

/// The body that stores `content` with `tags`.
pub fn store_request(content: &str, tags: &[String]) -> (r: MemoryStoreRequest)
    ensures
        r.content@ == content@,
        r.tags@.map_values(|s: String| s@) == tags@.map_values(|s: String| s@),
{
    let mut copied: Vec<String> = Vec::new();
    let mut i: usize = 0;
    while i < tags.len()
        invariant
            i <= tags@.len(),
            copied@.map_values(|s: String| s@) == tags@.take(i as int).map_values(|s: String| s@),
        decreases tags.len() - i,
    {
        let ghost before = copied@.map_values(|s: String| s@);
        copied.push(tags[i].clone());
        assert(copied@.map_values(|s: String| s@) =~= before.push(tags@[i as int]@));
        assert(tags@.take((i + 1) as int).map_values(|s: String| s@) =~= tags@.take(i as int).map_values(
            |s: String| s@,
        ).push(tags@[i as int]@));
        i = i + 1;
    }
    assert(tags@.take(tags@.len() as int) =~= tags@);
    MemoryStoreRequest { content: content.to_owned(), tags: copied }
}

} // verus!
