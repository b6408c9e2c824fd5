//! Descriptions of what can be fetched: a path template, the credential
//! that goes into it, and whether the cache is preferred.

use vstd::prelude::*;
use vstd::string::StringExecFns;
use crate::text::to_chars;

verus! {

/// The placeholder that stands in a path template where the credential
/// goes.
pub open spec fn cred_token() -> Seq<char> {
    "{CRED}"@
}

/// `s` with every occurrence of `from` replaced by `to`. Occurrences are
/// found from left to right and do not overlap.
pub open spec fn replaced(s: Seq<char>, from: Seq<char>, to: Seq<char>) -> Seq<char>
    decreases s.len(),
{
    if from.len() == 0 || s.len() < from.len() {
        s
    } else if s.take(from.len() as int) == from {
        to + replaced(s.skip(from.len() as int), from, to)
    } else {
        seq![s[0]] + replaced(s.skip(1), from, to)
    }
}

/// Whether `pattern` stands in `text` at index `at`.
fn matches_at(text: &Vec<char>, at: usize, pattern: &Vec<char>) -> (r: bool)
    requires
        at + pattern.len() <= text.len(),
    ensures
        r == (text@.subrange(at as int, at + pattern.len()) == pattern@),
{
    let ghost window = text@.subrange(at as int, at + pattern.len());
    let mut k: usize = 0;
    while k < pattern.len()
        invariant
            k <= pattern.len(),
            at + pattern.len() <= text.len(),
            window == text@.subrange(at as int, at + pattern.len()),
            forall|j: int| 0 <= j < k ==> window[j] == pattern@[j],
        decreases pattern.len() - k,
    {
        if text[at + k] != pattern[k] {
            assert(window[k as int] != pattern@[k as int]);
            return false;
        }
        k += 1;
    }
    assert(window =~= pattern@);
    true
}

/// Replaces every occurrence of `from` in `s` by `to`.
fn replace_all(s: &str, from: &str, to: &str) -> (r: String)
    requires
        from@.len() > 0,
    ensures
        r@ == replaced(s@, from@, to@),
{
    let text = to_chars(s);
    let pattern = to_chars(from);
    let mut out = String::new();
    let mut i: usize = 0;
    assert(s@.skip(0) =~= s@);
    assert(out@ + replaced(s@, from@, to@) =~= replaced(s@, from@, to@));
    while i < text.len()
        invariant
            i <= text.len(),
            text@ == s@,
            pattern@ == from@,
            from@.len() > 0,
            out@ + replaced(s@.skip(i as int), from@, to@) == replaced(s@, from@, to@),
        decreases text.len() - i,
    {
        let ghost rest = s@.skip(i as int);
        let ghost before = out@;
        if pattern.len() <= text.len() - i && matches_at(&text, i, &pattern) {
            out.append(to);
            proof {
                assert(rest.take(from@.len() as int) =~= text@.subrange(
                    i as int,
                    i + pattern.len(),
                ));
                assert(rest.skip(from@.len() as int) =~= s@.skip(i + pattern.len()));
                assert((before + to@) + replaced(s@.skip(i + pattern.len()), from@, to@) =~= before
                    + replaced(rest, from@, to@));
            }
            i += pattern.len();
        } else {
            out.push(text[i]);
            proof {
                let tail = s@.skip(i + 1);
                assert(rest.skip(1) =~= tail);
                assert(rest[0] == text@[i as int]);
                if rest.len() >= from@.len() {
                    assert(rest.take(from@.len() as int) =~= text@.subrange(
                        i as int,
                        i + pattern.len(),
                    ));
                } else {
                    assert(seq![rest[0]] + tail =~= rest);
                }
                assert(replaced(rest, from@, to@) == seq![rest[0]] + replaced(tail, from@, to@));
                assert(before.push(rest[0]) + replaced(tail, from@, to@) =~= before + replaced(
                    rest,
                    from@,
                    to@,
                ));
            }
            i += 1;
        }
    }
    assert(out@ + replaced(s@.skip(i as int), from@, to@) =~= out@);
    out
}

/// The characters of a credential, or none where there is no credential.
pub open spec fn credential_text(cred: Option<String>) -> Seq<char> {
    match cred {
        Some(c) => c@,
        None => Seq::<char>::empty(),
    }
}

/// The address of `path` on the remote service, with `cred` before the
/// host name.
pub open spec fn service_address(cred: Seq<char>, path: Seq<char>) -> Seq<char> {
    "https://"@ + cred + "opensky-network.org/api"@ + path
}

/// The path of the snapshot of all state vectors.
pub open spec fn state_vectors_path() -> Seq<char> {
    "/states/all"@
}

/// The address of `path` on the remote service, for the credential `cred`
/// if there is one.
pub fn source(cred: Option<String>, path: String) -> (r: String)
    ensures
        r@ == service_address(credential_text(cred), path@),
{
    let mut out = String::from_str("https://");
    match cred {
        Some(c) => {
            out.append(c.as_str());
        },
        None => {
            assert(out@ + Seq::<char>::empty() =~= out@);
        },
    }
    out.append("opensky-network.org/api");
    out.append(path.as_str());
    out
}

/// The address of the snapshot of all state vectors, for the credential
/// `cred` if there is one.
pub fn source_state_vectors(cred: Option<String>) -> (r: String)
    ensures
        r@ == service_address(credential_text(cred), state_vectors_path()),
{
    source(cred, String::from_str("/states/all"))
}

/// Maker of source descriptors that share one credential and one cache
/// preference.
pub struct SourceProvider {
    cred: Option<String>,
    use_cache: bool,
}

/// One fetchable resource. The credential is kept apart from the path
/// template and goes into it anew at every resolution.
pub struct Source {
    path: String,
    cred: Option<String>,
    use_cache: bool,
}

impl SourceProvider {
    /// The credential that the provider hands to its sources.
    pub closed spec fn credential(&self) -> Option<String> {
        self.cred
    }

    /// The cache preference that the provider hands to its sources.
    pub closed spec fn prefers_cache(&self) -> bool {
        self.use_cache
    }

    /// A provider with the credential `cred`, if there is one.
    pub fn new(cred: &Option<String>, use_cache: bool) -> (r: Self)
        ensures
            r.credential() == *cred,
            r.prefers_cache() == use_cache,
    {
        Self { cred: clone_credential(cred), use_cache }
    }

    /// Whether the provider's sources prefer the cache.
    pub fn _should_use_cache(&self) -> (r: bool)
        ensures
            r == self.prefers_cache(),
    {
        self.use_cache
    }

    /// Whether the provider holds a credential.
    pub fn is_authenticated(&self) -> (r: bool)
        ensures
            r == self.credential().is_some(),
    {
        self.cred.is_some()
    }

    /// The source of `path` on the remote service. Its template holds the
    /// placeholder, not the credential.
    pub fn source(&self, path: String) -> (r: Source)
        ensures
            r.template() == service_address(cred_token(), path@),
            r.credential() == self.credential(),
            r.prefers_cache() == self.prefers_cache(),
    {
        let mut template = String::from_str("https://");
        template.append("{CRED}");
        template.append("opensky-network.org/api");
        template.append(path.as_str());
        Source::new(template, clone_credential(&self.cred), self.use_cache)
    }

    /// The source of the snapshot of all state vectors. Its template holds
    /// the placeholder, not the credential.
    pub fn source_state_vectors(&self) -> (r: Source)
        ensures
            r.template() == service_address(cred_token(), state_vectors_path()),
            r.credential() == self.credential(),
            r.prefers_cache() == self.prefers_cache(),
            r.resolved_path() == service_address(
                credential_text(self.credential()),
                state_vectors_path(),
            ),
            r.underlying_path() == service_address(Seq::<char>::empty(), state_vectors_path()),
    {
        proof {
            reveal_strlit("/states/all");
            lemma_provider_template_resolves(
                state_vectors_path(),
                credential_text(self.credential()),
            );
            lemma_provider_template_resolves(state_vectors_path(), Seq::<char>::empty());
        }
        self.source(String::from_str("/states/all"))
    }
}

fn clone_credential(cred: &Option<String>) -> (r: Option<String>)
    ensures
        r == *cred,
{
    match cred {
        Some(c) => Some(c.clone()),
        None => None,
    }
}

impl Source {
    /// The path template, with the placeholder where the credential goes.
    pub closed spec fn template(&self) -> Seq<char> {
        self.path@
    }

    /// The credential that resolution puts into the template.
    pub closed spec fn credential(&self) -> Option<String> {
        self.cred
    }

    /// Whether the cache is preferred over the remote service.
    pub closed spec fn prefers_cache(&self) -> bool {
        self.use_cache
    }

    /// The path that is fetched: the template with the credential in place
    /// of every placeholder.
    pub open spec fn resolved_path(&self) -> Seq<char> {
        replaced(self.template(), cred_token(), credential_text(self.credential()))
    }

    /// The path without any credential: the template with every
    /// placeholder taken out. It is the same whatever credential is held.
    pub open spec fn underlying_path(&self) -> Seq<char> {
        replaced(self.template(), cred_token(), Seq::<char>::empty())
    }

    /// A source with the template `path`.
    pub fn new(path: String, cred: Option<String>, use_cache: bool) -> (r: Self)
        ensures
            r.template() == path@,
            r.credential() == cred,
            r.prefers_cache() == use_cache,
    {
        Self { path, cred, use_cache }
    }

    fn resolve_path(&self, cred: &Option<String>) -> (r: String)
        ensures
            r@ == replaced(self.template(), cred_token(), credential_text(*cred)),
    {
        proof {
            reveal_strlit("{CRED}");
        }
        match cred {
            Some(c) => replace_all(self.path.as_str(), "{CRED}", c.as_str()),
            None => {
                proof {
                    reveal_strlit("");
                    assert(""@ =~= Seq::<char>::empty());
                }
                replace_all(self.path.as_str(), "{CRED}", "")
            },
        }
    }

    /// Resolves the source with its credential.
    pub fn get_path(&self) -> (r: String)
        ensures
            r@ == self.resolved_path(),
    {
        self.resolve_path(&self.cred)
    }

    /// Resolves the source without a credential.
    pub fn get_underlying_path(&self) -> (r: String)
        ensures
            r@ == self.underlying_path(),
    {
        self.resolve_path(&None)
    }

    /// Whether the cache is preferred over the remote service.
    pub fn should_use_cache(&self) -> (r: bool)
        ensures
            r == self.prefers_cache(),
    {
        self.use_cache
    }
}

impl Clone for Source {
    fn clone(&self) -> (r: Self)
        ensures
            r == *self,
    {
        Self { path: self.path.clone(), cred: clone_credential(&self.cred), use_cache: self.use_cache }
    }
}

/// Where the first character of the pattern does not occur, nothing is
/// replaced.
pub proof fn lemma_replaced_without_match(s: Seq<char>, from: Seq<char>, to: Seq<char>)
    requires
        from.len() > 0,
        forall|i: int| 0 <= i < s.len() ==> s[i] != from[0],
    ensures
        replaced(s, from, to) == s,
    decreases s.len(),
{
    if s.len() >= from.len() {
        assert(s.take(from.len() as int)[0] == s[0]);
        lemma_replaced_without_match(s.skip(1), from, to);
        assert(seq![s[0]] + s.skip(1) =~= s);
    }
}

/// A prefix in which the first character of the pattern does not occur is
/// kept as it is, and replacement goes on behind it.
pub proof fn lemma_replaced_after_prefix(
    prefix: Seq<char>,
    rest: Seq<char>,
    from: Seq<char>,
    to: Seq<char>,
)
    requires
        from.len() > 0,
        forall|i: int| 0 <= i < prefix.len() ==> prefix[i] != from[0],
    ensures
        replaced(prefix + rest, from, to) == prefix + replaced(rest, from, to),
    decreases prefix.len(),
{
    let s = prefix + rest;
    if prefix.len() == 0 {
        assert(s =~= rest);
        assert(prefix + replaced(rest, from, to) =~= replaced(rest, from, to));
    } else if s.len() >= from.len() {
        assert(s.take(from.len() as int)[0] == prefix[0]);
        assert(s.skip(1) =~= prefix.skip(1) + rest);
        lemma_replaced_after_prefix(prefix.skip(1), rest, from, to);
        assert(seq![s[0]] + (prefix.skip(1) + replaced(rest, from, to)) =~= prefix + replaced(
            rest,
            from,
            to,
        ));
    }
}

/// A string that begins with the pattern begins, after replacement, with
/// what the pattern is replaced by.
pub proof fn lemma_replaced_at_match(rest: Seq<char>, from: Seq<char>, to: Seq<char>)
    requires
        from.len() > 0,
    ensures
        replaced(from + rest, from, to) == to + replaced(rest, from, to),
{
    let s = from + rest;
    assert(s.take(from.len() as int) =~= from);
    assert(s.skip(from.len() as int) =~= rest);
}

/// A template that a provider made for `path` resolves to the address of
/// `path` with the credential in its place, and its underlying path is the
/// address without any credential. This holds where no opening brace stands
/// in `path`, so that no further placeholder can begin there.
pub proof fn lemma_provider_template_resolves(path: Seq<char>, cred: Seq<char>)
    requires
        forall|i: int| 0 <= i < path.len() ==> path[i] != '{',
    ensures
        replaced(service_address(cred_token(), path), cred_token(), cred) == service_address(
            cred,
            path,
        ),
{
    reveal_strlit("https://");
    reveal_strlit("{CRED}");
    reveal_strlit("opensky-network.org/api");
    let scheme = "https://"@;
    let token = cred_token();
    let host = "opensky-network.org/api"@;
    let tail = host + path;
    assert(token[0] == '{');
    assert(service_address(token, path) =~= scheme + (token + tail));
    assert(service_address(cred, path) =~= scheme + (cred + tail));
    lemma_replaced_after_prefix(scheme, token + tail, token, cred);
    lemma_replaced_at_match(tail, token, cred);
    lemma_replaced_without_match(tail, token, cred);
}

/// A source without a credential resolves to its underlying path.
pub proof fn lemma_uncredentialed_path(source: Source)
    requires
        source.credential() is None,
    ensures
        source.resolved_path() == source.underlying_path(),
{
}

/// The underlying path does not depend on the credential: two sources with
/// one template have one underlying path.
pub proof fn lemma_underlying_path_ignores_credential(a: Source, b: Source)
    requires
        a.template() == b.template(),
    ensures
        a.underlying_path() == b.underlying_path(),
{
}

} // verus!
