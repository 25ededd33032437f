//! Client-side configuration: the service's base address and the admin
//! list, with verified endpoint address building.

use vstd::prelude::*;
use vstd::string::*;

verus! {

/// Where the job service is reached, and who counts as an administrator.
#[derive(Debug, Clone)]
pub struct BotConfig {
    pub calc_runner_url: String,
    pub admin_user_ids: Vec<i64>,
}

/// `s` without its trailing slashes.
pub open spec fn strip_trailing_slashes(s: Seq<char>) -> Seq<char>
    decreases s.len(),
{
    if s.len() > 0 && s.last() == '/' {
        strip_trailing_slashes(s.drop_last())
    } else {
        s
    }
}

/// `s` without its leading slashes.
pub open spec fn strip_leading_slashes(s: Seq<char>) -> Seq<char>
    decreases s.len(),
{
    if s.len() > 0 && s[0] == '/' {
        strip_leading_slashes(s.drop_first())
    } else {
        s
    }
}

proof fn lemma_strip_trailing(s: Seq<char>, end: int)
    requires
        0 <= end <= s.len(),
        forall|j: int| end <= j < s.len() ==> s[j] == '/',
        end == 0 || s[end - 1] != '/',
    ensures
        strip_trailing_slashes(s) == s.take(end),
    decreases s.len(),
{
    if s.len() == end {
        assert(s.take(end) =~= s);
        if s.len() > 0 && s.last() == '/' {
            assert(s[end - 1] == '/');
            assert(false);
        }
    } else {
        assert(s.last() == '/');
        assert(s.drop_last() =~= s.take(s.len() - 1));
        lemma_strip_trailing(s.take(s.len() - 1), end);
        assert(s.take(s.len() - 1).take(end) =~= s.take(end));
    }
}

proof fn lemma_strip_leading(s: Seq<char>, start: int)
    requires
        0 <= start <= s.len(),
        forall|j: int| 0 <= j < start ==> s[j] == '/',
        start == s.len() || s[start] != '/',
    ensures
        strip_leading_slashes(s) == s.skip(start),
    decreases start,
{
    if start == 0 {
        assert(s.skip(0) =~= s);
        if s.len() > 0 && s[0] == '/' {
            assert(false);
        }
    } else {
        assert(s[0] == '/');
        let t = s.drop_first();
        assert(t =~= s.skip(1));
        assert(forall|j: int| 0 <= j < start - 1 ==> t[j] == s[j + 1]);
        lemma_strip_leading(t, start - 1);
        assert(t.skip(start - 1) =~= s.skip(start));
    }
}

impl BotConfig {
    /// The full address of an endpoint: the base with its trailing slashes
    /// dropped, one slash, and the path with its leading slashes dropped.
    pub fn api_url(&self, path: &str) -> (r: String)
        ensures
            r@ == strip_trailing_slashes(self.calc_runner_url@) + seq!['/']
                + strip_leading_slashes(path@),
    {
        let base = self.calc_runner_url.as_str();
        let blen = base.unicode_len();
        let mut end = blen;
        while end > 0 && base.get_char(end - 1) == '/'
            invariant
                end <= blen,
                blen == base@.len(),
                forall|j: int| end <= j < blen ==> base@[j] == '/',
            decreases end,
        {
            end = end - 1;
        }
        proof {
            lemma_strip_trailing(base@, end as int);
        }
        let trimmed_base = base.substring_char(0, end);
        let plen = path.unicode_len();
        let mut start: usize = 0;
        while start < plen && path.get_char(start) == '/'
            invariant
                start <= plen,
                plen == path@.len(),
                forall|j: int| 0 <= j < start ==> path@[j] == '/',
            decreases plen - start,
        {
            start = start + 1;
        }
        proof {
            lemma_strip_leading(path@, start as int);
        }
        let trimmed_path = path.substring_char(start, plen);
        let mut out = String::from_str(trimmed_base);
        out.append("/");
        out.append(trimmed_path);
        proof {
            reveal_strlit("/");
            assert(base@.take(end as int) == strip_trailing_slashes(self.calc_runner_url@));
            assert("/"@ =~= seq!['/']);
        }
        out
    }
}

} // verus!
