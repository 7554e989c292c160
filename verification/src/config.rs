//! Session and API configuration values, and the URL joining used when
//! addressing the translation service.

use vstd::prelude::*;
use crate::text::drop_end_while;
use crate::text::drop_start_while;
use crate::text::lemma_drop_end_while;
use crate::text::lemma_drop_start_while;
use crate::text::str_to_chars;
use crate::text::chars_to_string;

verus! {

/// Limits of one review session.
#[derive(Debug)]
pub struct SessionConfig {
    pub max_cards: usize,
    pub max_new_cards: usize,
    pub stop_after_correct: usize,
    pub max_minutes: Option<u64>,
}

impl Default for SessionConfig {
    fn default() -> (r: Self)
        ensures
            r.max_cards == 20,
            r.max_new_cards == 10,
            r.stop_after_correct == 15,
            r.max_minutes is None,
    {
        SessionConfig { max_cards: 20, max_new_cards: 10, stop_after_correct: 15, max_minutes: None }
    }
}

/// Where the translation service lives and how to authenticate against it.
#[derive(Debug)]
pub struct ApiConfig {
    pub base_url: String,
    pub auth_token: String,
}

impl Default for ApiConfig {
    fn default() -> (r: Self)
        ensures
            r.base_url@ == "https://api.example.com"@,
            r.auth_token@.len() == 0,
    {
        let base = "https://api.example.com";
        let base_url = base.to_owned();
        ApiConfig { base_url, auth_token: String::new() }
    }
}

/// A base URL and a path joined by exactly one `/`.
pub open spec fn join_url_spec(base: Seq<char>, path: Seq<char>) -> Seq<char> {
    drop_end_while(base, |c: char| c == '/') + seq!['/'] + drop_start_while(
        path,
        |c: char| c == '/',
    )
}

/// Joins a base URL and a path with a single slash between them, whatever
/// trailing or leading slashes the two carry.
pub fn join_url(base: &str, path: &str) -> (r: String)
    ensures
        r@ == join_url_spec(base@, path@),
{
    let b = str_to_chars(base);
    let p = str_to_chars(path);
    let mut end: usize = b.len();
    while end > 0 && b[end - 1] == '/'
        invariant
            end <= b@.len(),
            forall|k: int| end <= k < b@.len() ==> b@[k] == '/',
        decreases end,
    {
        end = end - 1;
    }
    proof {
        lemma_drop_end_while(b@, |c: char| c == '/', end as int);
    }
    let mut start: usize = 0;
    while start < p.len() && p[start] == '/'
        invariant
            start <= p@.len(),
            forall|k: int| 0 <= k < start ==> p@[k] == '/',
        decreases p@.len() - start,
    {
        start = start + 1;
    }
    proof {
        lemma_drop_start_while(p@, |c: char| c == '/', start as int);
    }
    let mut out: Vec<char> = Vec::new();
    let mut i: usize = 0;
    while i < end
        invariant
            i <= end <= b@.len(),
            out@ == b@.subrange(0, i as int),
        decreases end - i,
    {
        out.push(b[i]);
        proof {
            assert(b@.subrange(0, i + 1 as int) =~= b@.subrange(0, i as int).push(b@[i as int]));
        }
        i = i + 1;
    }
    out.push('/');
    let mut j: usize = start;
    while j < p.len()
        invariant
            start <= j <= p@.len(),
            out@ == b@.subrange(0, end as int) + seq!['/'] + p@.subrange(start as int, j as int),
        decreases p@.len() - j,
    {
        out.push(p[j]);
        proof {
            assert(p@.subrange(start as int, j + 1 as int) =~= p@.subrange(
                start as int,
                j as int,
            ).push(p@[j as int]));
            assert((b@.subrange(0, end as int) + seq!['/'] + p@.subrange(start as int, j as int)).push(
                p@[j as int]) =~= b@.subrange(0, end as int) + seq!['/'] + p@.subrange(
                start as int,
                j + 1 as int,
            ));
        }
        j = j + 1;
    }
    proof {
        assert(b@.subrange(0, end as int) =~= b@.take(end as int));
        assert(p@.subrange(start as int, p@.len() as int) =~= p@.skip(start as int));
    }
    chars_to_string(&out)
}

} // verus!
