//! Path-alias remapping: the `paths` of a TypeScript configuration, and the
//! relative paths an import may resolve to.
use vstd::prelude::*;
use vstd::utf8::encode_utf8;

verus! {

/// A path, possibly with a wildcard.
#[derive(Debug)]
pub enum PathVal {
    /// The path is an exact path.
    Exact(String),
    /// The path is a wildcard path, with the given prefix and suffix
    /// surrounding the `*`.
    Wildcard { prefix: String, suffix: String },
}

/// The view of a `PathVal`.
pub enum PathPattern {
    Exact(Seq<char>),
    Wildcard(Seq<char>, Seq<char>),
}

impl PathVal {
    pub open spec fn view(&self) -> PathPattern {
        match self {
            PathVal::Exact(s) => PathPattern::Exact(s@),
            PathVal::Wildcard { prefix, suffix } => PathPattern::Wildcard(prefix@, suffix@),
        }
    }
}

/// The position of the first `*` in `s`, or -1.
pub open spec fn first_star(s: Seq<char>) -> int
    decreases s.len(),
{
    if s.len() == 0 {
        -1
    } else if s[0] == '*' {
        0
    } else {
        let k = first_star(s.drop_first());
        if k >= 0 {
            k + 1
        } else {
            -1
        }
    }
}

/// The pattern a configured path stands for: split at its first `*`, if it
/// has one.
pub open spec fn pattern_of(s: Seq<char>) -> PathPattern {
    let k = first_star(s);
    if 0 <= k < s.len() {
        PathPattern::Wildcard(s.subrange(0, k), s.subrange(k + 1, s.len() as int))
    } else {
        PathPattern::Exact(s)
    }
}

/// The length in bytes of the prefix before the wildcard, or of the whole
/// path when it is exact.
pub open spec fn prefix_bytes(p: PathPattern) -> usize {
    match p {
        PathPattern::Exact(s) => encode_utf8(s).len() as usize,
        PathPattern::Wildcard(prefix, _) => encode_utf8(prefix).len() as usize,
    }
}

pub proof fn lemma_first_star(s: Seq<char>)
    ensures
        -1 <= first_star(s) < s.len(),
        first_star(s) >= 0 ==> s[first_star(s)] == '*',
        forall|i: int| 0 <= i < s.len() && (first_star(s) == -1 || i < first_star(s)) ==> s[i] != '*',
    decreases s.len(),
{
    if s.len() > 0 && s[0] != '*' {
        lemma_first_star(s.drop_first());
        assert forall|i: int| 1 <= i < s.len() implies s[i] == s.drop_first()[i - 1] by {}
    }
}

impl PathVal {
    /// Reads a configured path: a wildcard path if it has a `*`, split at the
    /// first one, else an exact path.
    pub fn from_string(s: String) -> (r: PathVal)
        ensures
            r.view() == pattern_of(s@),
    {
        let n = s.unicode_len();
        let mut i: usize = 0;
        proof {
            lemma_first_star(s@);
        }
        while i < n
            invariant
                n == s@.len(),
                i <= n,
                forall|k: int| 0 <= k < i ==> s@[k] != '*',
            decreases n - i,
        {
            if s.as_str().get_char(i) == '*' {
                proof {
                    lemma_first_star(s@);
                }
                let prefix = s.as_str().substring_char(0, i).to_owned();
                let suffix = s.as_str().substring_char(i + 1, n).to_owned();
                return PathVal::Wildcard { prefix, suffix };
            }
            i += 1;
        }
        PathVal::Exact(s)
    }

    /// The length in bytes of the prefix, or of the full path if it is an
    /// exact path.
    pub fn prefix_len(&self) -> (r: usize)
        ensures
            r == prefix_bytes(self.view()),
    {
        match self {
            PathVal::Exact(s) => s.as_str().len(),
            PathVal::Wildcard { prefix, .. } => prefix.as_str().len(),
        }
    }
}

impl From<String> for PathVal {
    fn from(s: String) -> (r: PathVal) {
        PathVal::from_string(s)
    }
}

impl vstd::std_specs::convert::FromSpecImpl<String> for PathVal {
    open spec fn obeys_from_spec() -> bool {
        false
    }

    open spec fn from_spec(s: String) -> PathVal {
        PathVal::Exact(s)
    }
}

/// A configured alias and the paths it maps to.
#[derive(Debug)]
pub struct PathEntry {
    pub key: PathVal,
    pub values: Vec<PathVal>,
}

pub open spec fn patterns(v: Seq<PathVal>) -> Seq<PathPattern> {
    Seq::new(v.len(), |i: int| v[i].view())
}

impl PathEntry {
    pub open spec fn view(&self) -> (PathPattern, Seq<PathPattern>) {
        (self.key.view(), patterns(self.values@))
    }
}

pub open spec fn entries(v: Seq<PathEntry>) -> Seq<(PathPattern, Seq<PathPattern>)> {
    Seq::new(v.len(), |i: int| v[i].view())
}

/// The position, from the front, of the first entry whose key prefix is
/// shorter than `n` bytes, or the length.
pub open spec fn insert_at(es: Seq<(PathPattern, Seq<PathPattern>)>, n: usize) -> int
    decreases es.len(),
{
    if es.len() == 0 {
        0
    } else if prefix_bytes(es[0].0) < n {
        0
    } else {
        insert_at(es.drop_first(), n) + 1
    }
}

/// The entries ordered by decreasing key prefix length, entries of equal
/// length keeping their order.
pub open spec fn by_prefix(es: Seq<(PathPattern, Seq<PathPattern>)>) -> Seq<(PathPattern, Seq<PathPattern>)>
    decreases es.len(),
{
    if es.len() == 0 {
        Seq::empty()
    } else {
        let sorted = by_prefix(es.drop_last());
        let k = insert_at(sorted, prefix_bytes(es.last().0));
        sorted.insert(k, es.last())
    }
}

pub proof fn lemma_insert_at(es: Seq<(PathPattern, Seq<PathPattern>)>, n: usize)
    ensures
        0 <= insert_at(es, n) <= es.len(),
        forall|i: int| 0 <= i < insert_at(es, n) ==> prefix_bytes(#[trigger] es[i].0) >= n,
        insert_at(es, n) < es.len() ==> prefix_bytes(es[insert_at(es, n)].0) < n,
    decreases es.len(),
{
    if es.len() > 0 && prefix_bytes(es[0].0) >= n {
        lemma_insert_at(es.drop_first(), n);
        assert forall|i: int| 1 <= i < es.len() implies es[i] == es.drop_first()[i - 1] by {}
    }
}

/// Resolves imports through the `paths` of a TypeScript configuration.
#[derive(Debug)]
pub struct TsConfigPathResolver {
    /// The base path from which relative paths are resolved.
    pub base: String,
    /// The parsed paths, sorted by descending prefix length (before any `*`).
    pub paths: Vec<PathEntry>,
}

/// Relies on std's `Path::join`: `rel` resolved against `base` (`rel` itself
/// when it is absolute).
#[verifier::external_body]
fn join_path(base: &str, rel: &str) -> (r: String)
    ensures
        r@ == path_join(base@, rel@),
{
    std::path::Path::new(base).join(rel).to_string_lossy().into_owned()
}

pub uninterp spec fn path_join(base: Seq<char>, rel: Seq<char>) -> Seq<char>;

/// The view of configured paths: each alias with the paths it maps to.
pub open spec fn configured(paths: Seq<(String, Vec<String>)>) -> Seq<(PathPattern, Seq<PathPattern>)> {
    Seq::new(
        paths.len(),
        |i: int|
            (
                pattern_of(paths[i].0@),
                Seq::new(paths[i].1@.len(), |j: int| pattern_of(paths[i].1@[j]@)),
            ),
    )
}

impl TsConfigPathResolver {
    /// A resolver for a configuration in `tsconfig_dir`, with the given
    /// `baseUrl` and `paths`. The base is `baseUrl` resolved against the
    /// directory, or the directory itself; the entries are ordered by
    /// decreasing prefix length, keeping the configured order among equals.
    pub fn from_config(
        tsconfig_dir: &str,
        base_url: Option<String>,
        paths: Vec<(String, Vec<String>)>,
    ) -> (r: TsConfigPathResolver)
        ensures
            r.base@ == match base_url {
                Some(u) => path_join(tsconfig_dir@, u@),
                None => tsconfig_dir@,
            },
            entries(r.paths@) == by_prefix(configured(paths@)),
    {
        let base = match &base_url {
            Some(u) => join_path(tsconfig_dir, u.as_str()),
            None => tsconfig_dir.to_owned(),
        };
        let ghost conf = configured(paths@);
        let mut sorted: Vec<PathEntry> = Vec::new();
        let mut i: usize = 0;
        assert(conf.subrange(0, 0) =~= Seq::<(PathPattern, Seq<PathPattern>)>::empty());
        assert(entries(sorted@) =~= Seq::<(PathPattern, Seq<PathPattern>)>::empty());
        while i < paths.len()
            invariant
                conf == configured(paths@),
                i <= paths@.len(),
                entries(sorted@) == by_prefix(conf.subrange(0, i as int)),
            decreases paths@.len() - i,
        {
            let (key, vals) = (&paths[i].0, &paths[i].1);
            let key = PathVal::from_string(key.clone());
            let mut values: Vec<PathVal> = Vec::new();
            let mut j: usize = 0;
            while j < vals.len()
                invariant
                    j <= vals@.len(),
                    values@.len() == j,
                    forall|k: int| 0 <= k < j ==> (#[trigger] values@[k]).view() == pattern_of(vals@[k]@),
                decreases vals@.len() - j,
            {
                values.push(PathVal::from_string(vals[j].clone()));
                j += 1;
            }
            let entry = PathEntry { key, values };
            assert(entry.view() == conf[i as int]) by {
                assert(patterns(entry.values@) =~= conf[i as int].1);
            }
            let n = entry.key.prefix_len();
            let ghost es = entries(sorted@);
            let mut k: usize = 0;
            proof {
                lemma_insert_at(es, n);
                assert(es.subrange(0, es.len() as int) =~= es);
            }
            while k < sorted.len() && sorted[k].key.prefix_len() >= n
                invariant
                    es == entries(sorted@),
                    k <= sorted@.len(),
                    insert_at(es, n) == insert_at(es.subrange(k as int, es.len() as int), n) + k,
                decreases sorted@.len() - k,
            {
                let ghost t = es.subrange(k as int, es.len() as int);
                assert(t[0] == es[k as int]);
                assert(t.drop_first() =~= es.subrange(k + 1, es.len() as int));
                k += 1;
            }
            proof {
                let t = es.subrange(k as int, es.len() as int);
                if k < sorted@.len() {
                    assert(t[0] == es[k as int]);
                }
                assert(insert_at(t, n) == 0);
                let p = conf.subrange(0, i + 1);
                assert(p.drop_last() =~= conf.subrange(0, i as int));
                assert(p.last() == conf[i as int]);
            }
            let ghost ev = entry.view();
            sorted.insert(k, entry);
            assert(entries(sorted@) =~= es.insert(k as int, ev));
            i += 1;
        }
        assert(conf.subrange(0, paths@.len() as int) =~= conf);
        TsConfigPathResolver { base, paths: sorted }
    }

    /// The base path from which relative paths are resolved.
    pub fn base(&self) -> (r: &str)
        ensures
            r@ == self.base@,
    {
        self.base.as_str()
    }
}

/// The paths an import maps to through one entry, in the order they are
/// tried: for an exact key equal to the import, its exact values; for a
/// wildcard key whose prefix and suffix surround the import, each value with
/// its `*` replaced by what the key's `*` matched.
pub open spec fn entry_targets(e: (PathPattern, Seq<PathPattern>), import: Seq<char>) -> Seq<Seq<char>>
    decreases e.1.len(),
{
    if e.1.len() == 0 {
        Seq::empty()
    } else {
        let before = entry_targets((e.0, e.1.drop_last()), import);
        match e.0 {
            PathPattern::Exact(k) => if k == import {
                match e.1.last() {
                    PathPattern::Exact(v) => before.push(v),
                    PathPattern::Wildcard(_, _) => before,
                }
            } else {
                before
            },
            PathPattern::Wildcard(p, q) => if p.len() + q.len() <= import.len() && import.subrange(
                0,
                p.len() as int,
            ) == p && import.subrange(import.len() - q.len(), import.len() as int) == q {
                let middle = import.subrange(p.len() as int, import.len() - q.len());
                match e.1.last() {
                    PathPattern::Exact(v) => before.push(v),
                    PathPattern::Wildcard(vp, vq) => before.push(vp + middle + vq),
                }
            } else {
                before
            },
        }
    }
}

/// The paths an import maps to through all entries, in order.
pub open spec fn targets(es: Seq<(PathPattern, Seq<PathPattern>)>, import: Seq<char>) -> Seq<Seq<char>>
    decreases es.len(),
{
    if es.len() == 0 {
        Seq::empty()
    } else {
        targets(es.drop_last(), import) + entry_targets(es.last(), import)
    }
}

/// Whether `s` starts with `p` and ends with `q`, with room for both.
fn surrounds(s: &str, p: &str, q: &str) -> (r: bool)
    ensures
        r == (p@.len() + q@.len() <= s@.len() && s@.subrange(0, p@.len() as int) == p@
            && s@.subrange(s@.len() - q@.len(), s@.len() as int) == q@),
{
    let n = s.unicode_len();
    let pn = p.unicode_len();
    let qn = q.unicode_len();
    if pn > n || qn > n - pn {
        return false;
    }
    let mut i: usize = 0;
    while i < pn
        invariant
            pn == p@.len(),
            n == s@.len(),
            pn <= n,
            i <= pn,
            forall|k: int| 0 <= k < i ==> s@[k] == p@[k],
        decreases pn - i,
    {
        if s.get_char(i) != p.get_char(i) {
            assert(s@.subrange(0, pn as int)[i as int] != p@[i as int]);
            return false;
        }
        i += 1;
    }
    assert(s@.subrange(0, pn as int) =~= p@);
    let mut j: usize = 0;
    while j < qn
        invariant
            qn == q@.len(),
            n == s@.len(),
            qn <= n,
            j <= qn,
            forall|k: int| 0 <= k < j ==> s@[n - qn + k] == q@[k],
        decreases qn - j,
    {
        if s.get_char(n - qn + j) != q.get_char(j) {
            assert(s@.subrange(n - qn, n as int)[j as int] != q@[j as int]);
            return false;
        }
        j += 1;
    }
    assert(s@.subrange(n - qn, n as int) =~= q@);
    true
}

impl TsConfigPathResolver {
    /// The paths, relative to the base, that `import` maps to, in the order
    /// they are to be tried: the first of them whose file exists is the
    /// resolution.
    pub fn resolve_candidates(&self, import: &str) -> (r: Vec<String>)
        ensures
            Seq::new(r@.len(), |i: int| r@[i]@) == targets(entries(self.paths@), import@),
    {
        let ghost es = entries(self.paths@);
        let mut out: Vec<String> = Vec::new();
        let mut i: usize = 0;
        assert(es.subrange(0, 0) =~= Seq::<(PathPattern, Seq<PathPattern>)>::empty());
        assert(Seq::new(out@.len(), |k: int| out@[k]@) =~= Seq::<Seq<char>>::empty());
        while i < self.paths.len()
            invariant
                es == entries(self.paths@),
                i <= self.paths@.len(),
                Seq::new(out@.len(), |k: int| out@[k]@) == targets(es.subrange(0, i as int), import@),
            decreases self.paths@.len() - i,
        {
            let entry = &self.paths[i];
            let ghost ev = entry.view();
            let ghost before = Seq::new(out@.len(), |k: int| out@[k]@);
            let ghost base_len = out@.len();
            let mut j: usize = 0;
            assert(ev.1.subrange(0, 0) =~= Seq::<PathPattern>::empty());
            assert(entry_targets((ev.0, ev.1.subrange(0, 0)), import@) =~= Seq::<Seq<char>>::empty());
            assert(Seq::new(out@.len(), |k: int| out@[k]@) =~= before + entry_targets((ev.0, ev.1.subrange(0, 0)), import@));
            while j < entry.values.len()
                invariant
                    ev == entry.view(),
                    j <= entry.values@.len(),
                    ev.1.len() == entry.values@.len(),
                    out@.len() >= base_len,
                    before.len() == base_len,
                    Seq::new(out@.len(), |k: int| out@[k]@) == before + entry_targets((ev.0, ev.1.subrange(0, j as int)), import@),
                decreases entry.values@.len() - j,
            {
                let ghost sub = ev.1.subrange(0, j + 1);
                assert(sub.drop_last() =~= ev.1.subrange(0, j as int));
                assert(sub.last() == entry.values@[j as int].view());
                let ghost prev = out@;
                let pick: Option<String> = match (&entry.key, &entry.values[j]) {
                    (PathVal::Exact(k), PathVal::Exact(v)) => {
                        if crate::identity::str_equal(k.as_str(), import) {
                            Some(v.clone())
                        } else {
                            None
                        }
                    },
                    (PathVal::Exact(_), PathVal::Wildcard { .. }) => None,
                    (PathVal::Wildcard { prefix, suffix }, v) => {
                        if surrounds(import, prefix.as_str(), suffix.as_str()) {
                            match v {
                                PathVal::Exact(v) => Some(v.clone()),
                                PathVal::Wildcard { prefix: vp, suffix: vq } => {
                                    let n = import.unicode_len();
                                    let middle = import.substring_char(
                                        prefix.as_str().unicode_len(),
                                        n - suffix.as_str().unicode_len(),
                                    );
                                    let joined = vp.clone().concat(middle).concat(vq.as_str());
                                    Some(joined)
                                },
                            }
                        } else {
                            None
                        }
                    },
                };
                match pick {
                    Some(t) => {
                        out.push(t);
                        assert(Seq::new(out@.len(), |k: int| out@[k]@) =~= Seq::new(prev.len(), |k: int| prev[k]@).push(out@[prev.len() as int]@));
                    },
                    None => {},
                }
                j += 1;
            }
            assert(ev.1.subrange(0, ev.1.len() as int) =~= ev.1);
            let ghost p = es.subrange(0, i + 1);
            assert(p.drop_last() =~= es.subrange(0, i as int));
            assert(p.last() == ev);
            i += 1;
        }
        assert(es.subrange(0, self.paths@.len() as int) =~= es);
        out
    }
}

/// The source extensions a module path with extension `ext` may stand for,
/// in the order they are tried; the empty one stands for the path itself.
pub open spec fn known_extensions(ext: Option<Seq<char>>) -> Seq<Seq<char>> {
    if ext == Some("js"@) {
        seq!["ts"@, "tsx"@, "d.ts"@, "js"@, "jsx"@]
    } else if ext == Some("mjs"@) {
        seq!["mts"@, "d.mts"@, "mjs"@]
    } else if ext == Some("cjs"@) {
        seq!["cts"@, "d.cts"@, "cjs"@]
    } else {
        seq![
            "ts"@,
            "tsx"@,
            "d.ts"@,
            "js"@,
            "jsx"@,
            "mts"@,
            "d.mts"@,
            "mjs"@,
            "cts"@,
            "d.cts"@,
            "cjs"@,
            ""@,
        ]
    }
}

/// The extension to give a module path with extension `ext` for the
/// candidate `c`: none for the empty candidate, else `c` after the path's
/// own extension, if it has one.
pub open spec fn combined_extension(ext: Option<Seq<char>>, c: Seq<char>) -> Seq<char> {
    if c.len() == 0 {
        c
    } else {
        match ext {
            Some(e) => e + "."@ + c,
            None => c,
        }
    }
}

/// The view of an optional extension.
pub open spec fn ext_view(e: Option<&str>) -> Option<Seq<char>> {
    match e {
        Some(x) => Some(x@),
        None => None,
    }
}

fn strings_of(v: Vec<&str>) -> (r: Vec<String>)
    ensures
        r@.len() == v@.len(),
        forall|i: int| 0 <= i < v@.len() ==> (#[trigger] r@[i])@ == v@[i]@,
{
    let mut out: Vec<String> = Vec::new();
    let mut i: usize = 0;
    while i < v.len()
        invariant
            i <= v@.len(),
            out@.len() == i,
            forall|k: int| 0 <= k < i ==> (#[trigger] out@[k])@ == v@[k]@,
        decreases v@.len() - i,
    {
        out.push(v[i].to_owned());
        i += 1;
    }
    out
}

/// The extensions to give a module path whose own extension is `base_ext`,
/// one per file that may stand for it, in the order they are tried; an empty
/// one stands for the path as it is.
pub fn file_candidates(base_ext: Option<&str>) -> (r: Vec<String>)
    ensures
        r@.len() == known_extensions(ext_view(base_ext)).len(),
        forall|i: int|
            0 <= i < r@.len() ==> (#[trigger] r@[i])@ == combined_extension(
                ext_view(base_ext),
                known_extensions(ext_view(base_ext))[i],
            ),
{
    let ghost ext = ext_view(base_ext);
    let names: Vec<&str> = match base_ext {
        Some(e) if crate::identity::str_equal(e, "js") => vec!["ts", "tsx", "d.ts", "js", "jsx"],
        Some(e) if crate::identity::str_equal(e, "mjs") => vec!["mts", "d.mts", "mjs"],
        Some(e) if crate::identity::str_equal(e, "cjs") => vec!["cts", "d.cts", "cjs"],
        _ => vec!["ts", "tsx", "d.ts", "js", "jsx", "mts", "d.mts", "mjs", "cts", "d.cts", "cjs", ""],
    };
    let names = strings_of(names);
    assert(names@.len() == known_extensions(ext).len());
    let mut out: Vec<String> = Vec::new();
    let mut i: usize = 0;
    while i < names.len()
        invariant
            ext == ext_view(base_ext),
            names@.len() == known_extensions(ext).len(),
            forall|k: int| 0 <= k < names@.len() ==> (#[trigger] names@[k])@ == known_extensions(ext)[k],
            i <= names@.len(),
            out@.len() == i,
            forall|k: int| 0 <= k < i ==> (#[trigger] out@[k])@ == combined_extension(ext, known_extensions(ext)[k]),
        decreases names@.len() - i,
    {
        let c = &names[i];
        let e = if c.as_str().unicode_len() == 0 {
            c.clone()
        } else {
            match base_ext {
                Some(b) => b.to_owned().concat(".").concat(c.as_str()),
                None => c.clone(),
            }
        };
        out.push(e);
        i += 1;
    }
    out
}

} // verus!
