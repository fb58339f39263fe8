//! The local registry: which version of each package is installed.
//!
//! The registry is the single persisted source of truth for "what is
//! installed".  Records are kept in a vector whose invariant is that
//! package names are unique, mirroring a map keyed by name.

use vstd::prelude::*;
use crate::ambient::now_utc_string;

verus! {

/// One installed package: name, installed version, the digest of the
/// archive it was installed from, where it was installed, and when.
pub struct LocalModVersion {
    pub name: String,
    pub version: String,
    pub checksum: Option<String>,
    pub installed_path: String,
    pub last_updated: String,
}

/// The mathematical value of a [`LocalModVersion`].
pub struct RecordV {
    pub name: Seq<char>,
    pub version: Seq<char>,
    pub checksum: Option<Seq<char>>,
    pub installed_path: Seq<char>,
    pub last_updated: Seq<char>,
}

impl View for LocalModVersion {
    type V = RecordV;

    open spec fn view(&self) -> RecordV {
        RecordV {
            name: self.name@,
            version: self.version@,
            checksum: match self.checksum {
                Some(c) => Some(c@),
                None => None,
            },
            installed_path: self.installed_path@,
            last_updated: self.last_updated@,
        }
    }
}

/// The installed records plus the time of the last update check.
pub struct LocalModRegistry {
    pub mods: Vec<LocalModVersion>,
    pub last_check: String,
}

/// The mathematical value of a [`LocalModRegistry`].
pub struct RegistryV {
    pub mods: Seq<RecordV>,
    pub last_check: Seq<char>,
}

impl View for LocalModRegistry {
    type V = RegistryV;

    open spec fn view(&self) -> RegistryV {
        RegistryV {
            mods: self.mods@.map_values(|m: LocalModVersion| m@),
            last_check: self.last_check@,
        }
    }
}

/// Package names are unique: the record vector stands for a map.
pub open spec fn unique_names(ms: Seq<RecordV>) -> bool {
    forall|i: int, j: int| 0 <= i < j < ms.len() ==> ms[i].name != ms[j].name
}

impl LocalModRegistry {
    /// The registry invariant.
    pub open spec fn wf(&self) -> bool {
        unique_names(self@.mods)
    }
}

/// The first record of the given name, if any.
pub open spec fn spec_lookup(ms: Seq<RecordV>, name: Seq<char>) -> Option<RecordV>
    decreases ms.len(),
{
    if ms.len() == 0 {
        None
    } else if ms[0].name == name {
        Some(ms[0])
    } else {
        spec_lookup(ms.drop_first(), name)
    }
}

/// Whether some record carries the given name.
pub open spec fn has_name(ms: Seq<RecordV>, name: Seq<char>) -> bool {
    exists|i: int| 0 <= i < ms.len() && ms[i].name == name
}

pub proof fn lemma_lookup_has_name(ms: Seq<RecordV>, name: Seq<char>)
    ensures
        spec_lookup(ms, name) is Some <==> has_name(ms, name),
        spec_lookup(ms, name) matches Some(r) ==> exists|i: int|
            0 <= i < ms.len() && ms[i] == r && ms[i].name == name,
    decreases ms.len(),
{
    if ms.len() == 0 {
    } else if ms[0].name == name {
        assert(ms[0].name == name);
    } else {
        lemma_lookup_has_name(ms.drop_first(), name);
        if has_name(ms.drop_first(), name) {
            let i = choose|i: int| 0 <= i < ms.drop_first().len() && ms.drop_first()[i].name
                == name;
            assert(ms[i + 1].name == name);
        }
        if has_name(ms, name) {
            let i = choose|i: int| 0 <= i < ms.len() && ms[i].name == name;
            assert(ms.drop_first()[i - 1].name == name);
        }
        match spec_lookup(ms.drop_first(), name) {
            Some(r) => {
                let i = choose|i: int|
                    0 <= i < ms.drop_first().len() && ms.drop_first()[i] == r
                        && ms.drop_first()[i].name == name;
                assert(ms[i + 1] == r);
            },
            None => {},
        }
    }
}

/// If a prefix of `ms` holds no record of the given name, the lookup is
/// decided by the rest.
proof fn lemma_lookup_skip(ms: Seq<RecordV>, name: Seq<char>, i: int)
    requires
        0 <= i <= ms.len(),
        forall|j: int| 0 <= j < i ==> ms[j].name != name,
    ensures
        spec_lookup(ms, name) == spec_lookup(ms.skip(i), name),
    decreases i,
{
    if i == 0 {
        assert(ms.skip(0) =~= ms);
    } else {
        assert(ms.len() > 0);
        assert(ms[0].name != name);
        lemma_lookup_skip(ms.drop_first(), name, i - 1);
        assert(ms.drop_first().skip(i - 1) =~= ms.skip(i));
    }
}

/// Find the installed record of a package, by name.
pub fn find_record<'a>(reg: &'a LocalModRegistry, name: &String) -> (r: Option<
    &'a LocalModVersion,
>)
    ensures
        match r {
            Some(rec) => spec_lookup(reg@.mods, name@) == Some(rec@),
            None => spec_lookup(reg@.mods, name@) is None,
        },
{
    let n = reg.mods.len();
    let mut i: usize = 0;
    while i < n
        invariant
            i <= n,
            n == reg.mods@.len(),
            forall|j: int| 0 <= j < i ==> reg@.mods[j].name != name@,
        decreases n - i,
    {
        if reg.mods[i].name.eq(name) {
            proof {
                lemma_lookup_skip(reg@.mods, name@, i as int);
                assert(reg@.mods.skip(i as int)[0] == reg@.mods[i as int]);
            }
            return Some(&reg.mods[i]);
        }
        i = i + 1;
    }
    proof {
        lemma_lookup_skip(reg@.mods, name@, n as int);
        assert(reg@.mods.skip(n as int).len() == 0);
    }
    None
}

proof fn lemma_lookup_update_same_name(ms: Seq<RecordV>, i: int, rec: RecordV, name: Seq<char>)
    requires
        0 <= i < ms.len(),
        ms[i].name == rec.name,
    ensures
        rec.name != name ==> spec_lookup(ms.update(i, rec), name) == spec_lookup(ms, name),
    decreases ms.len(),
{
    if rec.name != name {
        if i == 0 {
            assert(ms.update(0, rec)[0] == rec);
            assert(ms.update(0, rec).drop_first() =~= ms.drop_first());
        } else {
            assert(ms.update(i, rec)[0] == ms[0]);
            assert(ms.update(i, rec).drop_first() =~= ms.drop_first().update(i - 1, rec));
            lemma_lookup_update_same_name(ms.drop_first(), i - 1, rec, name);
        }
    }
}

proof fn lemma_lookup_push(ms: Seq<RecordV>, rec: RecordV, name: Seq<char>)
    ensures
        spec_lookup(ms.push(rec), name) == (if spec_lookup(ms, name) is Some {
            spec_lookup(ms, name)
        } else if rec.name == name {
            Some(rec)
        } else {
            None::<RecordV>
        }),
    decreases ms.len(),
{
    if ms.len() == 0 {
        assert(ms.push(rec)[0] == rec);
        assert(ms.push(rec).drop_first() =~= Seq::<RecordV>::empty());
    } else {
        assert(ms.push(rec)[0] == ms[0]);
        assert(ms.push(rec).drop_first() =~= ms.drop_first().push(rec));
        lemma_lookup_push(ms.drop_first(), rec, name);
    }
}

/// Record a successful install: the registry maps the package name to
/// the new version, digest, install path and timestamp, every other
/// record is untouched, and the last-check stamp is refreshed.  This is
/// the only way records change, so version, checksum and path always
/// move together.
#[verifier::loop_isolation(false)]
pub fn apply_install(
    reg: &mut LocalModRegistry,
    name: &String,
    version: &String,
    checksum: String,
    installed_path: String,
    now: String,
) -> (rec: LocalModVersion)
    ensures
        rec@ == (RecordV {
            name: name@,
            version: version@,
            checksum: Some(checksum@),
            installed_path: installed_path@,
            last_updated: now@,
        }),
        spec_lookup(final(reg)@.mods, name@) == Some(rec@),
        forall|n: Seq<char>| n != name@ ==> spec_lookup(final(reg)@.mods, n) == spec_lookup(
            old(reg)@.mods,
            n,
        ),
        old(reg).wf() ==> final(reg).wf(),
        final(reg)@.last_check == now@,
{
    let rec = LocalModVersion {
        name: name.clone(),
        version: version.clone(),
        checksum: Some(checksum),
        installed_path,
        last_updated: now.clone(),
    };
    let out = LocalModVersion {
        name: rec.name.clone(),
        version: rec.version.clone(),
        checksum: match &rec.checksum {
            Some(c) => Some(c.clone()),
            None => None,
        },
        installed_path: rec.installed_path.clone(),
        last_updated: rec.last_updated.clone(),
    };
    let ghost now_v = now@;
    reg.last_check = now;
    let ghost ms0 = reg@.mods;
    let n = reg.mods.len();
    let mut i: usize = 0;
    while i < n
        invariant
            i <= n,
            n == reg.mods@.len(),
            reg@.mods == ms0,
            forall|j: int| 0 <= j < i ==> ms0[j].name != name@,
            rec@.name == name@,
            reg@.last_check == now_v,
        decreases n - i,
    {
        if reg.mods[i].name.eq(name) {
            proof {
                lemma_lookup_skip(ms0.update(i as int, rec@), name@, i as int);
                assert(forall|j: int|
                    0 <= j < i ==> ms0.update(i as int, rec@)[j].name != name@);
                assert(ms0.update(i as int, rec@).skip(i as int)[0] == rec@);
                assert forall|nm: Seq<char>| nm != name@ implies spec_lookup(
                    ms0.update(i as int, rec@),
                    nm,
                ) == spec_lookup(ms0, nm) by {
                    lemma_lookup_update_same_name(ms0, i as int, rec@, nm);
                }
                if unique_names(ms0) {
                    assert forall|a: int, b: int|
                        0 <= a < b < ms0.update(i as int, rec@).len() implies ms0.update(
                        i as int,
                        rec@,
                    )[a].name != ms0.update(i as int, rec@)[b].name by {
                        assert(ms0[a].name != ms0[b].name);
                    }
                }
            }
            reg.mods.set(i, rec);
            proof {
                assert(reg@.mods =~= ms0.update(i as int, rec@));
            }
            return out;
        }
        i = i + 1;
    }
    proof {
        lemma_lookup_skip(ms0, name@, n as int);
        lemma_lookup_push(ms0, rec@, name@);
        if unique_names(ms0) {
            assert forall|a: int, b: int|
                0 <= a < b < ms0.push(rec@).len() implies ms0.push(rec@)[a].name != ms0.push(
                rec@,
            )[b].name by {
                if b < ms0.len() {
                    assert(ms0[a].name != ms0[b].name);
                } else {
                    assert(ms0.push(rec@)[b] == rec@);
                    assert(ms0[a].name != name@);
                }
            }
        }
        assert forall|nm: Seq<char>| nm != name@ implies spec_lookup(ms0.push(rec@), nm)
            == spec_lookup(ms0, nm) by {
            lemma_lookup_push(ms0, rec@, nm);
        }
    }
    reg.mods.push(rec);
    proof {
        assert(reg@.mods =~= ms0.push(rec@));
    }
    out
}

impl Default for LocalModRegistry {
    /// A fresh registry: no records, last check set to now.
    fn default() -> (r: Self)
        ensures
            r@.mods == Seq::<RecordV>::empty(),
            r.wf(),
    {
        let r = LocalModRegistry { mods: Vec::new(), last_check: now_utc_string() };
        proof {
            assert(r@.mods =~= Seq::<RecordV>::empty());
        }
        r
    }
}

} // verus!
