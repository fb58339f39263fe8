//! The remote catalog: which version of each package is available.
//!
//! The catalog protocol is one manifest URL per known package id whose
//! body is a bare, optionally quoted, version string; the archive URL
//! is derived from the id, never read from the manifest.  Fetching is
//! best-effort per entry: a package whose manifest could not be read is
//! simply left out of the catalog.

use vstd::prelude::*;
use vstd::string::StringExecFns;
use crate::strings::{chars_to_string, str_to_chars};

verus! {

/// One available package version, as the catalog reports it.
pub struct RemoteModVersion {
    pub name: String,
    pub version: String,
    pub download_url: String,
    pub checksum: Option<String>,
    pub size: Option<u64>,
}

/// The mathematical value of a [`RemoteModVersion`].
pub struct RemoteV {
    pub name: Seq<char>,
    pub version: Seq<char>,
    pub download_url: Seq<char>,
    pub checksum: Option<Seq<char>>,
    pub size: Option<u64>,
}

impl View for RemoteModVersion {
    type V = RemoteV;

    open spec fn view(&self) -> RemoteV {
        RemoteV {
            name: self.name@,
            version: self.version@,
            download_url: self.download_url@,
            checksum: match self.checksum {
                Some(c) => Some(c@),
                None => None,
            },
            size: self.size,
        }
    }
}

/// Where a package's manifest and archive live, relative to the bucket.
pub struct PackageDescriptor {
    pub id: String,
    pub manifest_path: String,
    pub archive_path: String,
}

pub open spec fn spec_bucket_base() -> Seq<char> {
    "https://mod.innovativedevsolutions.org"@
}

pub fn bucket_base_url() -> (s: String)
    ensures
        s@ == spec_bucket_base(),
{
    String::from_str("https://mod.innovativedevsolutions.org")
}

/// The descriptor for one package id: the manifest is `<id>_version.json`
/// and the archive `<id>.zip`.
fn descriptor(id: &str) -> (d: PackageDescriptor)
    ensures
        d.id@ == id@,
        d.manifest_path@ == id@ + "_version.json"@,
        d.archive_path@ == id@ + ".zip"@,
{
    let mut manifest = String::from_str(id);
    manifest.append("_version.json");
    let mut archive = String::from_str(id);
    archive.append(".zip");
    PackageDescriptor { id: String::from_str(id), manifest_path: manifest, archive_path: archive }
}

/// The fixed set of known package ids.
pub fn known_packages() -> (r: Vec<PackageDescriptor>)
    ensures
        r@.len() == 4,
        r@[0].id@ == "forge_client"@,
        r@[1].id@ == "forge_mod"@,
        r@[2].id@ == "forge_phone"@,
        r@[3].id@ == "forge_server"@,
        forall|i: int| 0 <= i < 4 ==> (#[trigger] r@[i]).manifest_path@ == r@[i].id@
            + "_version.json"@ && r@[i].archive_path@ == r@[i].id@ + ".zip"@,
{
    let mut v: Vec<PackageDescriptor> = Vec::new();
    v.push(descriptor("forge_client"));
    v.push(descriptor("forge_mod"));
    v.push(descriptor("forge_phone"));
    v.push(descriptor("forge_server"));
    v
}

/// The manifest URL for a package: `{base}/{manifestPath}`.
pub fn manifest_url(d: &PackageDescriptor) -> (s: String)
    ensures
        s@ == spec_bucket_base() + "/"@ + d.manifest_path@,
{
    let mut s = bucket_base_url();
    s.append("/");
    s.append(d.manifest_path.as_str());
    s
}

/// The archive URL for a package: `{base}/{archivePath}`.
pub fn archive_url(d: &PackageDescriptor) -> (s: String)
    ensures
        s@ == spec_bucket_base() + "/"@ + d.archive_path@,
{
    let mut s = bucket_base_url();
    s.append("/");
    s.append(d.archive_path.as_str());
    s
}

/// ASCII whitespace, as trimmed from a manifest body.
pub open spec fn is_space(c: char) -> bool {
    c == ' ' || c == '\t' || c == '\n' || c == '\r'
}

pub open spec fn is_quote(c: char) -> bool {
    c == '"'
}

pub open spec fn drop_front_while(s: Seq<char>, p: spec_fn(char) -> bool) -> Seq<char>
    decreases s.len(),
{
    if s.len() > 0 && p(s[0]) {
        drop_front_while(s.drop_first(), p)
    } else {
        s
    }
}

pub open spec fn drop_back_while(s: Seq<char>, p: spec_fn(char) -> bool) -> Seq<char>
    decreases s.len(),
{
    if s.len() > 0 && p(s.last()) {
        drop_back_while(s.drop_last(), p)
    } else {
        s
    }
}

/// What a manifest body denotes: the body with ASCII whitespace trimmed
/// from both ends and then any leading and trailing quotes removed.
pub open spec fn spec_parsed_version(s: Seq<char>) -> Seq<char> {
    let t = drop_back_while(drop_front_while(s, |c: char| is_space(c)), |c: char| is_space(c));
    drop_back_while(drop_front_while(t, |c: char| is_quote(c)), |c: char| is_quote(c))
}

proof fn lemma_drop_front_while_skip(s: Seq<char>, p: spec_fn(char) -> bool, a: int)
    requires
        0 <= a <= s.len(),
        forall|k: int| 0 <= k < a ==> p(s[k]),
        a == s.len() || !p(s[a]),
    ensures
        drop_front_while(s, p) == s.skip(a),
    decreases a,
{
    if a == 0 {
        assert(s.skip(0) =~= s);
    } else {
        assert(p(s[0]));
        lemma_drop_front_while_skip(s.drop_first(), p, a - 1);
        assert(s.drop_first().skip(a - 1) =~= s.skip(a));
    }
}

proof fn lemma_drop_back_while_take(s: Seq<char>, p: spec_fn(char) -> bool, b: int)
    requires
        0 <= b <= s.len(),
        forall|k: int| b <= k < s.len() ==> p(s[k]),
        b == 0 || !p(s[b - 1]),
    ensures
        drop_back_while(s, p) == s.take(b),
    decreases s.len() - b,
{
    if b == s.len() {
        assert(s.take(b) =~= s);
    } else {
        assert(p(s.last()));
        lemma_drop_back_while_take(s.drop_last(), p, b);
        assert(s.drop_last().take(b) =~= s.take(b));
    }
}

/// Trimming by indices: where everything before `a` and everything from
/// `b` on is whitespace, and neither end could extend, the trimmed
/// sequence is exactly the part from `a` to `b`.
pub proof fn lemma_trim_indices(line: Seq<char>, a: int, b: int)
    requires
        0 <= a <= b <= line.len(),
        forall|k: int| 0 <= k < a ==> is_space(#[trigger] line[k]),
        forall|k: int| b <= k < line.len() ==> is_space(#[trigger] line[k]),
        a == line.len() || !is_space(line[a]),
        b == a || !is_space(line[b - 1]),
    ensures
        drop_back_while(drop_front_while(line, |c: char| is_space(c)), |c: char| is_space(c))
            == line.skip(a).take(b - a),
{
    lemma_drop_front_while_skip(line, |c: char| is_space(c), a);
    let t = line.skip(a);
    assert forall|k: int| b - a <= k < t.len() implies is_space(#[trigger] t[k]) by {
        assert(t[k] == line[a + k]);
    }
    if b > a {
        assert(t[b - a - 1] == line[b - 1]);
    }
    lemma_drop_back_while_take(t, |c: char| is_space(c), b - a);
}

fn is_space_exec(c: char) -> (r: bool)
    ensures
        r == is_space(c),
{
    c == ' ' || c == '\t' || c == '\n' || c == '\r'
}

/// Parse a manifest body into a version string: trim ASCII whitespace,
/// then strip surrounding quotes.
#[verifier::loop_isolation(false)]
pub fn parse_version_text(body: &String) -> (r: String)
    ensures
        r@ == spec_parsed_version(body@),
{
    let cs = str_to_chars(body.as_str());
    let n = cs.len();
    let mut a: usize = 0;
    while a < n && is_space_exec(cs[a])
        invariant
            a <= n,
            forall|k: int| 0 <= k < a ==> is_space(cs@[k]),
        decreases n - a,
    {
        a = a + 1;
    }
    let mut b: usize = n;
    while b > a && is_space_exec(cs[b - 1])
        invariant
            a <= b <= n,
            forall|k: int| b <= k < n ==> is_space(cs@[k]),
        decreases b,
    {
        b = b - 1;
    }
    proof {
        lemma_drop_front_while_skip(cs@, |c: char| is_space(c), a as int);
        lemma_drop_back_while_take(cs@.skip(a as int), |c: char| is_space(c), b - a);
    }
    let ghost t = cs@.subrange(a as int, b as int);
    proof {
        assert(cs@.skip(a as int).take(b - a) =~= t);
    }
    // t is the whitespace-trimmed body; now strip quotes on [a2, b2)
    let mut a2: usize = a;
    while a2 < b && cs[a2] == '"'
        invariant
            a <= a2 <= b,
            forall|k: int| a <= k < a2 ==> is_quote(cs@[k]),
        decreases b - a2,
    {
        a2 = a2 + 1;
    }
    let mut b2: usize = b;
    while b2 > a2 && cs[b2 - 1] == '"'
        invariant
            a2 <= b2 <= b,
            forall|k: int| b2 <= k < b ==> is_quote(cs@[k]),
        decreases b2,
    {
        b2 = b2 - 1;
    }
    proof {
        assert(forall|k: int| 0 <= k < a2 - a ==> is_quote(t[k]));
        assert(a2 - a == t.len() || !is_quote(t[a2 - a]));
        lemma_drop_front_while_skip(t, |c: char| is_quote(c), a2 - a);
        let t2 = t.skip(a2 - a);
        assert(t2 =~= cs@.subrange(a2 as int, b as int));
        assert(forall|k: int| b2 - a2 <= k < t2.len() ==> is_quote(t2[k]));
        assert(b2 - a2 == 0 || !is_quote(t2[b2 - a2 - 1]));
        lemma_drop_back_while_take(t2, |c: char| is_quote(c), b2 - a2);
        assert(t2.take(b2 - a2) =~= cs@.subrange(a2 as int, b2 as int));
    }
    let mut out: Vec<char> = Vec::new();
    let mut i = a2;
    while i < b2
        invariant
            a2 <= i <= b2 <= cs@.len(),
            out@ == cs@.subrange(a2 as int, i as int),
        decreases b2 - i,
    {
        out.push(cs[i]);
        proof {
            assert(out@ =~= cs@.subrange(a2 as int, i + 1 as int));
        }
        i = i + 1;
    }
    proof {
        assert(out@ == spec_parsed_version(body@));
    }
    chars_to_string(&out)
}

/// The catalog entry derived from one descriptor and its manifest body.
pub open spec fn spec_catalog_entry(d: PackageDescriptor, body: Seq<char>) -> RemoteV {
    RemoteV {
        name: d.id@,
        version: spec_parsed_version(body),
        download_url: spec_bucket_base() + "/"@ + d.archive_path@,
        checksum: None,
        size: None,
    }
}

/// The catalog built from per-package fetch results: a package whose
/// manifest could not be read (`None`) is omitted.
pub open spec fn spec_catalog(fetched: Seq<(PackageDescriptor, Option<String>)>) -> Seq<RemoteV>
    decreases fetched.len(),
{
    if fetched.len() == 0 {
        Seq::empty()
    } else {
        let head: Seq<RemoteV> = match fetched[0].1 {
            Some(body) => seq![spec_catalog_entry(fetched[0].0, body@)],
            None => Seq::empty(),
        };
        head + spec_catalog(fetched.drop_first())
    }
}

proof fn lemma_spec_catalog_snoc(
    fetched: Seq<(PackageDescriptor, Option<String>)>,
    x: (PackageDescriptor, Option<String>),
)
    ensures
        spec_catalog(fetched.push(x)) == spec_catalog(fetched) + (match x.1 {
            Some(body) => seq![spec_catalog_entry(x.0, body@)],
            None => Seq::<RemoteV>::empty(),
        }),
    decreases fetched.len(),
{
    let tail: Seq<RemoteV> = match x.1 {
        Some(body) => seq![spec_catalog_entry(x.0, body@)],
        None => Seq::empty(),
    };
    if fetched.len() == 0 {
        reveal_with_fuel(spec_catalog, 2);
        assert(fetched.push(x).drop_first() =~= Seq::<(PackageDescriptor, Option<String>)>::empty());
        assert(spec_catalog(fetched.push(x)) =~= spec_catalog(fetched) + tail);
    } else {
        assert(fetched.push(x).drop_first() =~= fetched.drop_first().push(x));
        lemma_spec_catalog_snoc(fetched.drop_first(), x);
        assert(spec_catalog(fetched.push(x)) =~= spec_catalog(fetched) + tail);
    }
}

/// Assemble the catalog from per-package fetch results.  Every package
/// whose manifest was read contributes one entry, in order; the rest
/// are left out, and the call itself always succeeds.
#[verifier::loop_isolation(false)]
pub fn build_catalog(fetched: Vec<(PackageDescriptor, Option<String>)>) -> (r: Vec<
    RemoteModVersion,
>)
    ensures
        r@.map_values(|m: RemoteModVersion| m@) == spec_catalog(fetched@),
{
    let mut out: Vec<RemoteModVersion> = Vec::new();
    let n = fetched.len();
    proof {
        assert(out@.map_values(|m: RemoteModVersion| m@) =~= spec_catalog(
            fetched@.subrange(0, 0),
        ));
    }
    for i in 0..n
        invariant
            n == fetched@.len(),
            out@.map_values(|m: RemoteModVersion| m@) == spec_catalog(fetched@.subrange(0, i as int)),
    {
        let ghost pre = fetched@.subrange(0, i as int);
        let ghost ov = out@.map_values(|m: RemoteModVersion| m@);
        let (d, body) = &fetched[i];
        match body {
            Some(text) => {
                let url = archive_url(d);
                let version = parse_version_text(text);
                let entry = RemoteModVersion {
                    name: d.id.clone(),
                    version,
                    download_url: url,
                    checksum: None,
                    size: None,
                };
                let ghost ev = entry@;
                out.push(entry);
                proof {
                    assert(out@.map_values(|m: RemoteModVersion| m@) =~= ov.push(ev));
                    lemma_spec_catalog_snoc(pre, fetched@[i as int]);
                    assert(ov.push(ev) =~= ov + seq![ev]);
                    assert(ev == spec_catalog_entry(fetched@[i as int].0, fetched@[i as int].1->0@));
                }
            },
            None => {
                proof {
                    lemma_spec_catalog_snoc(pre, fetched@[i as int]);
                    assert(spec_catalog(pre.push(fetched@[i as int])) =~= spec_catalog(pre));
                }
            },
        }
        proof {
            assert(pre.push(fetched@[i as int]) =~= fetched@.subrange(0, i + 1 as int));
        }
    }
    proof {
        assert(fetched@.subrange(0, n as int) =~= fetched@);
    }
    out
}

} // verus!
