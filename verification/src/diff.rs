//! The diff engine: which packages need work, and what to tell the user.
//!
//! For every catalog entry there is exactly one decision.  A package
//! with no installed record is new; a package needs an update exactly
//! when it is new or its installed version differs from the remote
//! version as a string.  Packages installed locally but absent from the
//! catalog are not reported: no uninstall signal exists.

use vstd::prelude::*;
use vstd::string::StringExecFns;
use crate::catalog::{RemoteModVersion, RemoteV};
use crate::registry::{LocalModRegistry, RecordV, find_record, has_name, lemma_lookup_has_name,
    spec_lookup};
use crate::strings::{spec_dec, u64_to_string};
use crate::versions_differ;

verus! {

/// The decision for one package: recomputed every cycle, never stored.
pub struct ModUpdateInfo {
    pub mod_name: String,
    pub current_version: Option<String>,
    pub remote_version: String,
    pub needs_update: bool,
    pub is_new_mod: bool,
    pub download_url: String,
    pub size: Option<u64>,
}

/// The mathematical value of a [`ModUpdateInfo`].
pub struct DecisionV {
    pub mod_name: Seq<char>,
    pub current_version: Option<Seq<char>>,
    pub remote_version: Seq<char>,
    pub needs_update: bool,
    pub is_new_mod: bool,
    pub download_url: Seq<char>,
    pub size: Option<u64>,
}

impl View for ModUpdateInfo {
    type V = DecisionV;

    open spec fn view(&self) -> DecisionV {
        DecisionV {
            mod_name: self.mod_name@,
            current_version: match self.current_version {
                Some(v) => Some(v@),
                None => None,
            },
            remote_version: self.remote_version@,
            needs_update: self.needs_update,
            is_new_mod: self.is_new_mod,
            download_url: self.download_url@,
            size: self.size,
        }
    }
}

impl ModUpdateInfo {
    /// A field-for-field copy.
    pub fn duplicate(&self) -> (r: Self)
        ensures
            r@ == self@,
    {
        ModUpdateInfo {
            mod_name: self.mod_name.clone(),
            current_version: match &self.current_version {
                Some(v) => Some(v.clone()),
                None => None,
            },
            remote_version: self.remote_version.clone(),
            needs_update: self.needs_update,
            is_new_mod: self.is_new_mod,
            download_url: self.download_url.clone(),
            size: self.size,
        }
    }
}

/// The decision that a registry and one catalog entry determine.
pub open spec fn decision_for(ms: Seq<RecordV>, rv: RemoteV, d: DecisionV) -> bool {
    &&& d.mod_name == rv.name
    &&& d.remote_version == rv.version
    &&& d.download_url == rv.download_url
    &&& d.size == rv.size
    &&& d.current_version == (match spec_lookup(ms, rv.name) {
        Some(rec) => Some(rec.version),
        None => None::<Seq<char>>,
    })
    &&& d.is_new_mod == (spec_lookup(ms, rv.name) is None)
    &&& d.needs_update == (d.is_new_mod || d.current_version != Some(rv.version))
}

/// A decision's flags, spelled out: a package is new exactly when no
/// record of its name is installed, and it needs an update exactly when
/// it is new or the version strings differ.
pub proof fn lemma_decision_flags(ms: Seq<RecordV>, rv: RemoteV, d: DecisionV)
    requires
        decision_for(ms, rv, d),
    ensures
        d.is_new_mod <==> !has_name(ms, rv.name),
        d.needs_update <==> (d.is_new_mod || d.current_version != Some(rv.version)),
{
    lemma_lookup_has_name(ms, rv.name);
}

/// Compare a registry against a catalog: one decision per catalog
/// entry, in catalog order.
pub fn check_mod_updates(registry: &LocalModRegistry, remote: &Vec<RemoteModVersion>) -> (r: Vec<
    ModUpdateInfo,
>)
    ensures
        r@.len() == remote@.len(),
        forall|i: int| 0 <= i < remote@.len() ==> decision_for(
            registry@.mods,
            remote@[i]@,
            #[trigger] r@[i]@,
        ),
{
    let mut out: Vec<ModUpdateInfo> = Vec::new();
    let n = remote.len();
    for i in 0..n
        invariant
            n == remote@.len(),
            out@.len() == i,
            forall|k: int| 0 <= k < i ==> decision_for(
                registry@.mods,
                remote@[k]@,
                #[trigger] out@[k]@,
            ),
    {
        let rv = &remote[i];
        let current_version: Option<String> = match find_record(registry, &rv.name) {
            Some(rec) => Some(rec.version.clone()),
            None => None,
        };
        let is_new_mod = current_version.is_none();
        let needs_update = match &current_version {
            Some(local_ver) => versions_differ(local_ver, &rv.version),
            None => true,
        };
        let info = ModUpdateInfo {
            mod_name: rv.name.clone(),
            current_version,
            remote_version: rv.version.clone(),
            needs_update,
            is_new_mod,
            download_url: rv.download_url.clone(),
            size: rv.size,
        };
        out.push(info);
    }
    out
}

/// How many decisions ask for work.
pub open spec fn count_needing(ds: Seq<DecisionV>) -> int
    decreases ds.len(),
{
    if ds.len() == 0 {
        0
    } else {
        (if ds[0].needs_update {
            1int
        } else {
            0int
        }) + count_needing(ds.drop_first())
    }
}

proof fn lemma_count_needing_snoc(ds: Seq<DecisionV>, d: DecisionV)
    ensures
        count_needing(ds.push(d)) == count_needing(ds) + (if d.needs_update {
            1int
        } else {
            0int
        }),
    decreases ds.len(),
{
    if ds.len() == 0 {
        reveal_with_fuel(count_needing, 2);
        assert(ds.push(d).drop_first() =~= Seq::<DecisionV>::empty());
    } else {
        assert(ds.push(d).drop_first() =~= ds.drop_first().push(d));
        lemma_count_needing_snoc(ds.drop_first(), d);
    }
}

proof fn lemma_count_needing_bound(ds: Seq<DecisionV>)
    ensures
        0 <= count_needing(ds) <= ds.len(),
    decreases ds.len(),
{
    if ds.len() > 0 {
        lemma_count_needing_bound(ds.drop_first());
    }
}

/// The payload pushed to the notification channel.
pub struct ModNotification {
    pub notification_type: String,
    pub title: String,
    pub message: String,
    pub count: Option<u32>,
}

/// The title announcing available updates: the count, with a plural "s"
/// past one.
pub open spec fn spec_updates_title(count: int) -> Seq<char> {
    spec_dec(count) + " mod update"@ + (if count > 1 {
        "s"@
    } else {
        Seq::<char>::empty()
    }) + " available!"@
}

/// What a finished check tells the user: "up to date" when no decision
/// needs work, otherwise "updates available" carrying the count.
#[verifier::loop_isolation(false)]
pub fn notification_for_updates(infos: &Vec<ModUpdateInfo>) -> (r: ModNotification)
    requires
        infos@.len() <= u32::MAX,
    ensures
        ({
            let c = count_needing(infos@.map_values(|m: ModUpdateInfo| m@));
            if c == 0 {
                &&& r.notification_type@ == "up-to-date"@
                &&& r.title@ == "All mods are up to date!"@
                &&& r.message@ == "Your mods are current with the latest versions."@
                &&& r.count is None
            } else {
                &&& r.notification_type@ == "updates-available"@
                &&& r.title@ == spec_updates_title(c)
                &&& r.message@ == "Visit the Mods section to review and apply updates."@
                &&& r.count == Some(c as u32)
            }
        }),
{
    let ghost ds = infos@.map_values(|m: ModUpdateInfo| m@);
    let n = infos.len();
    let mut count: usize = 0;
    proof {
        assert(ds.subrange(0, 0) =~= Seq::<DecisionV>::empty());
        lemma_count_needing_bound(ds);
    }
    for i in 0..n
        invariant
            count == count_needing(ds.subrange(0, i as int)),
            count <= i,
    {
        proof {
            lemma_count_needing_snoc(ds.subrange(0, i as int), ds[i as int]);
            assert(ds.subrange(0, i as int).push(ds[i as int]) =~= ds.subrange(0, i + 1 as int));
        }
        if infos[i].needs_update {
            count = count + 1;
        }
    }
    proof {
        assert(ds.subrange(0, n as int) =~= ds);
    }
    if count == 0 {
        ModNotification {
            notification_type: String::from_str("up-to-date"),
            title: String::from_str("All mods are up to date!"),
            message: String::from_str("Your mods are current with the latest versions."),
            count: None,
        }
    } else {
        let mut title = u64_to_string(count as u64);
        title.append(" mod update");
        if count > 1 {
            title.append("s");
        }
        title.append(" available!");
        ModNotification {
            notification_type: String::from_str("updates-available"),
            title,
            message: String::from_str("Visit the Mods section to review and apply updates."),
            count: Some(count as u32),
        }
    }
}

/// The decisions that ask for work, in order.
pub fn updates_needed(infos: &Vec<ModUpdateInfo>) -> (r: Vec<ModUpdateInfo>)
    ensures
        r@.map_values(|m: ModUpdateInfo| m@) == infos@.map_values(|m: ModUpdateInfo| m@).filter(
            |d: DecisionV| d.needs_update,
        ),
{
    let ghost ds = infos@.map_values(|m: ModUpdateInfo| m@);
    let mut out: Vec<ModUpdateInfo> = Vec::new();
    let n = infos.len();
    proof {
        assert(ds.subrange(0, 0) =~= Seq::<DecisionV>::empty());
        reveal(Seq::filter);
    }
    for i in 0..n
        invariant
            n == infos@.len(),
            ds == infos@.map_values(|m: ModUpdateInfo| m@),
            out@.map_values(|m: ModUpdateInfo| m@) == ds.subrange(0, i as int).filter(
                |d: DecisionV| d.needs_update,
            ),
    {
        let ghost pre = ds.subrange(0, i as int);
        let ghost ov = out@.map_values(|m: ModUpdateInfo| m@);
        if infos[i].needs_update {
            let copy = infos[i].duplicate();
            let ghost cv = copy@;
            out.push(copy);
            proof {
                assert(out@.map_values(|m: ModUpdateInfo| m@) =~= ov.push(cv));
            }
        }
        proof {
            reveal(Seq::filter);
            assert(pre.push(ds[i as int]).drop_last() =~= pre);
            assert(pre.push(ds[i as int]).last() == ds[i as int]);
            assert(pre.push(ds[i as int]) =~= ds.subrange(0, i + 1 as int));
        }
    }
    proof {
        assert(ds.subrange(0, n as int) =~= ds);
    }
    out
}

/// The message reported for one successfully updated package.
pub open spec fn spec_success_message(d: DecisionV) -> Seq<char> {
    (if d.is_new_mod {
        "installed"@
    } else {
        "updated"@
    }) + " "@ + d.mod_name + " to version "@ + d.remote_version
}

/// "installed <name> to version <v>" for a new package, "updated ..."
/// for an existing one.
pub fn success_message(info: &ModUpdateInfo) -> (r: String)
    ensures
        r@ == spec_success_message(info@),
{
    let mut s = if info.is_new_mod {
        String::from_str("installed")
    } else {
        String::from_str("updated")
    };
    s.append(" ");
    s.append(info.mod_name.as_str());
    s.append(" to version ");
    s.append(info.remote_version.as_str());
    s
}

/// The success messages of a batch: one per attempted decision that
/// succeeded, in order; failed attempts contribute nothing.
pub open spec fn spec_batch_summary(ds: Seq<DecisionV>, ok: Seq<bool>) -> Seq<Seq<char>>
    decreases ds.len(),
{
    if ds.len() == 0 || ok.len() == 0 {
        Seq::empty()
    } else {
        (if ok[0] {
            seq![spec_success_message(ds[0])]
        } else {
            Seq::<Seq<char>>::empty()
        }) + spec_batch_summary(ds.drop_first(), ok.drop_first())
    }
}

proof fn lemma_spec_batch_summary_snoc(ds: Seq<DecisionV>, ok: Seq<bool>, d: DecisionV, o: bool)
    requires
        ds.len() == ok.len(),
    ensures
        spec_batch_summary(ds.push(d), ok.push(o)) == spec_batch_summary(ds, ok) + (if o {
            seq![spec_success_message(d)]
        } else {
            Seq::<Seq<char>>::empty()
        }),
    decreases ds.len(),
{
    if ds.len() == 0 {
        reveal_with_fuel(spec_batch_summary, 2);
        assert(ds.push(d).drop_first() =~= Seq::<DecisionV>::empty());
        assert(ok.push(o).drop_first() =~= Seq::<bool>::empty());
        assert(spec_batch_summary(ds.push(d), ok.push(o)) =~= spec_batch_summary(ds, ok) + (if o {
            seq![spec_success_message(d)]
        } else {
            Seq::<Seq<char>>::empty()
        }));
    } else {
        assert(ds.push(d).drop_first() =~= ds.drop_first().push(d));
        assert(ok.push(o).drop_first() =~= ok.drop_first().push(o));
        lemma_spec_batch_summary_snoc(ds.drop_first(), ok.drop_first(), d, o);
        assert(spec_batch_summary(ds.push(d), ok.push(o)) =~= spec_batch_summary(ds, ok) + (if o {
            seq![spec_success_message(d)]
        } else {
            Seq::<Seq<char>>::empty()
        }));
    }
}

/// Summarize a batch: given the attempted decisions and whether each
/// attempt succeeded, return the success messages of exactly the
/// successful attempts, in order.  A failed attempt is skipped, never
/// reported as an error: the batch does not fail.
#[verifier::loop_isolation(false)]
pub fn summarize_update_batch(attempts: &Vec<ModUpdateInfo>, succeeded: &Vec<bool>) -> (r: Vec<
    String,
>)
    requires
        attempts@.len() == succeeded@.len(),
    ensures
        r@.map_values(|s: String| s@) == spec_batch_summary(
            attempts@.map_values(|m: ModUpdateInfo| m@),
            succeeded@,
        ),
{
    let ghost ds = attempts@.map_values(|m: ModUpdateInfo| m@);
    let mut out: Vec<String> = Vec::new();
    let n = attempts.len();
    proof {
        assert(ds.subrange(0, 0) =~= Seq::<DecisionV>::empty());
        assert(succeeded@.subrange(0, 0) =~= Seq::<bool>::empty());
        assert(out@.map_values(|s: String| s@) =~= spec_batch_summary(
            ds.subrange(0, 0),
            succeeded@.subrange(0, 0),
        ));
    }
    for i in 0..n
        invariant
            out@.map_values(|s: String| s@) == spec_batch_summary(
                ds.subrange(0, i as int),
                succeeded@.subrange(0, i as int),
            ),
    {
        let ghost pre_d = ds.subrange(0, i as int);
        let ghost pre_o = succeeded@.subrange(0, i as int);
        let ghost ov = out@.map_values(|s: String| s@);
        if succeeded[i] {
            let msg = success_message(&attempts[i]);
            let ghost mv = msg@;
            out.push(msg);
            proof {
                assert(out@.map_values(|s: String| s@) =~= ov.push(mv));
                assert(ov.push(mv) =~= ov + seq![mv]);
            }
        }
        proof {
            lemma_spec_batch_summary_snoc(pre_d, pre_o, ds[i as int], succeeded@[i as int]);
            assert(pre_d.push(ds[i as int]) =~= ds.subrange(0, i + 1 as int));
            assert(pre_o.push(succeeded@[i as int]) =~= succeeded@.subrange(0, i + 1 as int));
        }
    }
    proof {
        assert(ds.subrange(0, n as int) =~= ds);
        assert(succeeded@.subrange(0, n as int) =~= succeeded@);
    }
    out
}

} // verus!
