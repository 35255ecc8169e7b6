//! TLS certificates for sites: where mkcert writes them, the command that
//! issues them, and when an existing certificate still covers a site.
use crate::layout::string_views;
use crate::paths::LaragonPaths;
use crate::privileged::{ListLog, StringLog};
use crate::service::{arg_views, SpawnSpec};
use crate::text::{
    cat, join_path, join_with, lemma_join_with_push, lemma_seq_lt_asymmetric, lemma_seq_lt_total, lemma_seq_lt_transitive,
    path_join, seq_lt, str_eq, str_lt,
};
use vstd::prelude::*;

verus! {

/// A certificate and its private key.
#[derive(Debug, Clone, PartialEq, Eq)]
pub struct CertFiles {
    pub cert: String,
    pub key: String,
}

/// Why a certificate could not be had.
#[derive(Debug)]
pub enum SslError {
    Io(String),
    Mkcert(String),
}

impl SslError {
    pub fn message(&self) -> (s: String)
        ensures
            s@ == match self {
                SslError::Io(m) => "ssl io error: "@ + m@,
                SslError::Mkcert(m) => "mkcert error: "@ + m@,
            },
    {
        match self {
            SslError::Io(m) => cat("ssl io error: ", m.as_str()),
            SslError::Mkcert(m) => cat("mkcert error: ", m.as_str()),
        }
    }
}

/// Issues (or reuses) a TLS certificate for a set of names.
pub trait CertIssuer {
    fn ensure_cert(&self, basename: &str, names: &[String]) -> Result<CertFiles, SslError>;
}

/// Where `x` goes in sorted `s`: after every string not above it.
pub open spec fn str_pos(s: Seq<Seq<char>>, x: Seq<char>) -> int
    decreases s.len(),
{
    if s.len() == 0 {
        0
    } else if seq_lt(x, s[0]) {
        0
    } else {
        1 + str_pos(s.drop_first(), x)
    }
}

/// The strings in ascending order.
pub open spec fn sort_strs(s: Seq<Seq<char>>) -> Seq<Seq<char>>
    decreases s.len(),
{
    if s.len() == 0 {
        s
    } else {
        let sorted = sort_strs(s.drop_last());
        sorted.insert(str_pos(sorted, s.last()), s.last())
    }
}

/// The strings in ascending order.
pub fn sort_strings(v: &[String]) -> (r: Vec<String>)
    ensures
        string_views(r@) == sort_strs(string_views(v@)),
{
    let ghost orig = string_views(v@);
    let mut out: Vec<String> = Vec::new();
    let mut i: usize = 0;
    while i < v.len()
        invariant
            0 <= i <= v@.len(),
            orig == string_views(v@),
            string_views(out@) == sort_strs(orig.take(i as int)),
        decreases v@.len() - i,
    {
        let x = v[i].clone();
        let ghost xv = x@;
        proof {
            assert(orig.take(i + 1).drop_last() =~= orig.take(i as int));
            assert(orig.take(i + 1).last() == xv);
        }
        let ghost sorted = string_views(out@);
        let mut p: usize = 0;
        let mut done = false;
        assert(sorted.skip(0) == sorted);
        while !done && p < out.len()
            invariant
                0 <= p <= out@.len(),
                sorted == string_views(out@),
                xv == x@,
                !done ==> str_pos(sorted, xv) == p + str_pos(sorted.skip(p as int), xv),
                done ==> str_pos(sorted, xv) == p,
            decreases out@.len() - p, (if done { 0int } else { 1int }),
        {
            assert(sorted.skip(p as int)[0] == sorted[p as int]);
            assert(sorted.skip(p as int).drop_first() == sorted.skip(p + 1));
            if str_lt(x.as_str(), out[p].as_str()) {
                done = true;
            } else {
                p = p + 1;
            }
        }
        proof {
            if !done {
                assert(sorted.skip(p as int).len() == 0);
            }
        }
        out.insert(p, x);
        assert(string_views(out@) =~= sorted.insert(p as int, xv));
        i = i + 1;
    }
    assert(orig.take(i as int) == orig);
    out
}

/// What the `.san` file beside a certificate holds: the names it was issued
/// for, sorted, one per line.
pub open spec fn san_text(names: Seq<Seq<char>>) -> Seq<char> {
    join_with(sort_strs(names), "\n"@)
}

/// The `.san` text for `names`.
pub fn san_contents(names: &[String]) -> (r: String)
    ensures
        r@ == san_text(string_views(names@)),
{
    let sorted = sort_strings(names);
    let ghost sv = string_views(sorted@);
    let mut r = String::new();
    let mut i: usize = 0;
    while i < sorted.len()
        invariant
            0 <= i <= sorted@.len(),
            sv == string_views(sorted@),
            r@ == join_with(sv.take(i as int), "\n"@),
        decreases sorted@.len() - i,
    {
        proof {
            lemma_join_with_push(sv.take(i as int), "\n"@, sorted@[i as int]@);
            assert(sv.take(i + 1) == sv.take(i as int).push(sorted@[i as int]@));
        }
        if i > 0 {
            r.append("\n");
        }
        r.append(sorted[i].as_str());
        i = i + 1;
    }
    assert(sv.take(i as int) == sv);
    r
}

/// An existing certificate is kept when it and its key exist and its `.san`
/// file lists exactly these names.
pub fn cert_is_current(cert_exists: bool, key_exists: bool, san: Option<&str>, names: &[String]) -> (b: bool)
    ensures
        b == (cert_exists && key_exists && san is Some && san.unwrap()@ == san_text(string_views(names@))),
{
    if !cert_exists || !key_exists {
        return false;
    }
    match san {
        Some(s) => {
            let want = san_contents(names);
            str_eq(s, want.as_str())
        },
        None => false,
    }
}

/// Issues certificates with mkcert into a directory.
pub struct MkcertIssuer {
    ssl_dir: String,
    mkcert_bin: String,
}

impl MkcertIssuer {
    pub closed spec fn ssl_dir_view(&self) -> Seq<char> {
        self.ssl_dir@
    }

    pub closed spec fn mkcert_view(&self) -> Seq<char> {
        self.mkcert_bin@
    }

    /// An issuer writing into `ssl_dir`, running `mkcert` from `$PATH`.
    pub fn new(ssl_dir: String) -> (r: MkcertIssuer)
        ensures
            r.ssl_dir_view() == ssl_dir@,
            r.mkcert_view() == "mkcert"@,
    {
        MkcertIssuer { ssl_dir, mkcert_bin: "mkcert".to_owned() }
    }

    /// An issuer writing into the stack's certificate directory, running the
    /// managed mkcert when one was found, else `mkcert` from `$PATH`.
    pub fn resolved(paths: &LaragonPaths, found: Option<String>) -> (r: MkcertIssuer)
        ensures
            r.ssl_dir_view() == paths.spec_ssl(),
            r.mkcert_view() == match found {
                Some(b) => b@,
                None => "mkcert"@,
            },
    {
        let bin = match found {
            Some(b) => b,
            None => "mkcert".to_owned(),
        };
        MkcertIssuer { ssl_dir: paths.ssl(), mkcert_bin: bin }
    }

    /// The same issuer running another mkcert binary.
    pub fn with_mkcert_bin(self, bin: String) -> (r: MkcertIssuer)
        ensures
            r.ssl_dir_view() == self.ssl_dir_view(),
            r.mkcert_view() == bin@,
    {
        MkcertIssuer { ssl_dir: self.ssl_dir, mkcert_bin: bin }
    }

    /// `<ssl_dir>/<basename>.pem`.
    pub fn cert_path(&self, basename: &str) -> (r: String)
        ensures
            r@ == path_join(self.ssl_dir_view(), basename@ + ".pem"@),
    {
        let f = cat(basename, ".pem");
        join_path(self.ssl_dir.as_str(), f.as_str())
    }

    /// `<ssl_dir>/<basename>-key.pem`.
    pub fn key_path(&self, basename: &str) -> (r: String)
        ensures
            r@ == path_join(self.ssl_dir_view(), basename@ + "-key.pem"@),
    {
        let f = cat(basename, "-key.pem");
        join_path(self.ssl_dir.as_str(), f.as_str())
    }

    /// `<ssl_dir>/<basename>.san`: the names the certificate was issued for.
    pub fn san_path(&self, basename: &str) -> (r: String)
        ensures
            r@ == path_join(self.ssl_dir_view(), basename@ + ".san"@),
    {
        let f = cat(basename, ".san");
        join_path(self.ssl_dir.as_str(), f.as_str())
    }

    /// `mkcert -cert-file <cert> -key-file <key> <names...>`.
    pub fn issue_command(&self, basename: &str, names: &[String]) -> (s: SpawnSpec)
        ensures
            s.program@ == self.mkcert_view(),
            arg_views(s.args@) == seq![
                "-cert-file"@,
                path_join(self.ssl_dir_view(), basename@ + ".pem"@),
                "-key-file"@,
                path_join(self.ssl_dir_view(), basename@ + "-key.pem"@),
            ] + string_views(names@),
            s.env@.len() == 0,
            s.cwd is None,
    {
        let cert = self.cert_path(basename);
        let key = self.key_path(basename);
        let mut spec = SpawnSpec::new(self.mkcert_bin.as_str()).arg("-cert-file").arg(cert.as_str()).arg("-key-file").arg(
            key.as_str(),
        );
        let ghost head = arg_views(spec.args@);
        let mut i: usize = 0;
        while i < names.len()
            invariant
                0 <= i <= names@.len(),
                spec.program@ == self.mkcert_view(),
                arg_views(spec.args@) == head + string_views(names@.take(i as int)),
                spec.env@.len() == 0,
                spec.cwd is None,
            decreases names@.len() - i,
        {
            spec = spec.arg(names[i].as_str());
            assert(string_views(names@.take(i + 1)) =~= string_views(names@.take(i as int)).push(names@[i as int]@));
            i = i + 1;
        }
        assert(names@.take(i as int) == names@);
        spec
    }
}

/// An issuer that issues nothing: it records each request and answers with
/// `<base>/<basename>.pem` and `<base>/<basename>-key.pem`.
#[derive(Clone)]
pub struct FakeCertIssuer {
    base: String,
    basenames: StringLog,
    names: ListLog,
}

impl FakeCertIssuer {
    /// The directory the answered paths lie in.
    pub closed spec fn base_view(&self) -> Seq<char> {
        self.base@
    }

    pub fn new(base: String) -> (r: FakeCertIssuer)
        ensures
            r.base_view() == base@,
    {
        FakeCertIssuer { base, basenames: StringLog::new(), names: ListLog::new() }
    }

    /// Each request so far: the basename and the names.
    pub fn requested(&self) -> Vec<(String, Vec<String>)> {
        let b = self.basenames.entries();
        let n = self.names.entries();
        let mut r: Vec<(String, Vec<String>)> = Vec::new();
        let mut i: usize = 0;
        while i < b.len() && i < n.len()
            invariant
                0 <= i <= b@.len(),
            decreases b@.len() - i,
        {
            r.push((b[i].clone(), crate::privileged::copy_strings(&n[i])));
            i = i + 1;
        }
        r
    }
}

impl CertIssuer for FakeCertIssuer {
    fn ensure_cert(&self, basename: &str, names: &[String]) -> (r: Result<CertFiles, SslError>)
        ensures
            r matches Ok(f) && f.cert@ == path_join(self.base_view(), basename@ + ".pem"@)
                && f.key@ == path_join(self.base_view(), basename@ + "-key.pem"@),
    {
        self.basenames.push(basename.to_owned());
        let mut copy: Vec<String> = Vec::new();
        let mut i: usize = 0;
        while i < names.len()
            invariant
                0 <= i <= names@.len(),
            decreases names@.len() - i,
        {
            copy.push(names[i].clone());
            i = i + 1;
        }
        self.names.push(copy);
        let cert = join_path(self.base.as_str(), cat(basename, ".pem").as_str());
        let key = join_path(self.base.as_str(), cat(basename, "-key.pem").as_str());
        Ok(CertFiles { cert, key })
    }
}

// ---------------------------------------------------------------------------
// The names of a certificate are compared without regard to their order
// ---------------------------------------------------------------------------

/// No string comes after a greater one.
pub open spec fn sorted_strs(s: Seq<Seq<char>>) -> bool {
    forall|i: int, j: int| 0 <= i < j < s.len() ==> !seq_lt(#[trigger] s[j], #[trigger] s[i])
}

proof fn lemma_str_pos(s: Seq<Seq<char>>, x: Seq<char>)
    ensures
        0 <= str_pos(s, x) <= s.len(),
        forall|k: int| 0 <= k < str_pos(s, x) ==> !seq_lt(x, #[trigger] s[k]),
        str_pos(s, x) < s.len() ==> seq_lt(x, s[str_pos(s, x)]),
    decreases s.len(),
{
    if s.len() > 0 && !seq_lt(x, s[0]) {
        let t = s.drop_first();
        lemma_str_pos(t, x);
        assert(str_pos(s, x) == 1 + str_pos(t, x));
        assert forall|k: int| 0 <= k < str_pos(s, x) implies !seq_lt(x, #[trigger] s[k]) by {
            if k > 0 {
                assert(s[k] == t[k - 1]);
            }
        }
        if str_pos(s, x) < s.len() {
            assert(s[str_pos(s, x)] == t[str_pos(t, x)]);
        }
    }
}

proof fn lemma_str_insert_sorted(s: Seq<Seq<char>>, x: Seq<char>)
    requires
        sorted_strs(s),
    ensures
        sorted_strs(s.insert(str_pos(s, x), x)),
{
    let p = str_pos(s, x);
    lemma_str_pos(s, x);
    let r = s.insert(p, x);
    s.insert_ensures(p, x);
    assert forall|i: int, j: int| 0 <= i < j < r.len() implies !seq_lt(#[trigger] r[j], #[trigger] r[i]) by {
        if j < p {
            assert(r[i] == s[i] && r[j] == s[j]);
        } else if j == p {
            assert(r[i] == s[i]);
        } else if i < p {
            assert(r[i] == s[i] && r[j] == s[j - 1]);
        } else if i == p {
            assert(r[j] == s[j - 1]);
            if seq_lt(s[j - 1], x) {
                lemma_seq_lt_transitive(s[j - 1], x, s[p]);
                if j - 1 == p {
                    lemma_seq_lt_asymmetric(s[p], x);
                } else {
                    assert(!seq_lt(s[j - 1], s[p]));
                }
            }
        } else {
            assert(r[i] == s[i - 1] && r[j] == s[j - 1]);
        }
    }
}

proof fn lemma_sort_strs_props(s: Seq<Seq<char>>)
    ensures
        sorted_strs(sort_strs(s)),
        sort_strs(s).to_multiset() == s.to_multiset(),
    decreases s.len(),
{
    if s.len() > 0 {
        let rest = s.drop_last();
        lemma_sort_strs_props(rest);
        let sorted = sort_strs(rest);
        lemma_str_insert_sorted(sorted, s.last());
        lemma_str_pos(sorted, s.last());
        vstd::seq_lib::to_multiset_insert(sorted, str_pos(sorted, s.last()), s.last());
        vstd::seq_lib::to_multiset_build(rest, s.last());
        assert(rest.push(s.last()) =~= s);
    }
}

/// Two sorted sequences with the same elements are the same sequence.
proof fn lemma_sorted_unique(a: Seq<Seq<char>>, b: Seq<Seq<char>>)
    requires
        sorted_strs(a),
        sorted_strs(b),
        a.to_multiset() == b.to_multiset(),
    ensures
        a == b,
    decreases a.len(),
{
    vstd::seq_lib::to_multiset_len(a);
    vstd::seq_lib::to_multiset_len(b);
    if a.len() == 0 {
        assert(a =~= b);
    } else {
        vstd::seq_lib::to_multiset_contains(a, b[0]);
        vstd::seq_lib::to_multiset_contains(b, b[0]);
        vstd::seq_lib::to_multiset_contains(a, a[0]);
        vstd::seq_lib::to_multiset_contains(b, a[0]);
        assert(b.contains(b[0]));
        assert(a.contains(a[0]));
        let ka = choose|k: int| 0 <= k < a.len() && a[k] == b[0];
        let kb = choose|k: int| 0 <= k < b.len() && b[k] == a[0];
        if ka > 0 {
            assert(!seq_lt(a[ka], a[0]));
        }
        if kb > 0 {
            assert(!seq_lt(b[kb], b[0]));
        }
        lemma_seq_lt_total(a[0], b[0]);
        assert(a[0] == b[0]);
        vstd::seq_lib::to_multiset_remove(a, 0);
        vstd::seq_lib::to_multiset_remove(b, 0);
        assert(a.remove(0) =~= a.drop_first());
        assert(b.remove(0) =~= b.drop_first());
        let ta = a.drop_first();
        let tb = b.drop_first();
        assert forall|i: int, j: int| 0 <= i < j < ta.len() implies !seq_lt(#[trigger] ta[j], #[trigger] ta[i]) by {
            assert(ta[j] == a[j + 1] && ta[i] == a[i + 1]);
        }
        assert forall|i: int, j: int| 0 <= i < j < tb.len() implies !seq_lt(#[trigger] tb[j], #[trigger] tb[i]) by {
            assert(tb[j] == b[j + 1] && tb[i] == b[i + 1]);
        }
        lemma_sorted_unique(ta, tb);
        assert forall|i: int| 0 <= i < a.len() implies a[i] == b[i] by {
            if i > 0 {
                assert(a[i] == ta[i - 1] && b[i] == tb[i - 1]);
            }
        }
        assert(a =~= b);
    }
}

/// The `.san` text depends on which names there are (and how often each
/// occurs), not on their order: a certificate stays current for its names
/// in any order.
pub proof fn lemma_san_text_order_free(a: Seq<Seq<char>>, b: Seq<Seq<char>>)
    requires
        a.to_multiset() == b.to_multiset(),
    ensures
        san_text(a) == san_text(b),
{
    lemma_sort_strs_props(a);
    lemma_sort_strs_props(b);
    lemma_sorted_unique(sort_strs(a), sort_strs(b));
}

} // verus!
