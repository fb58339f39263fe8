//! Mod presets and application settings.
//!
//! A preset is a named list of mod paths.  The preset list lives in a
//! file the caller reads and writes; the operations here work on the
//! list as a value.

use vstd::prelude::*;
use vstd::string::StringExecFns;
use crate::ambient::{new_uuid_string, now_utc_string};

verus! {

/// A named selection of mod paths.
pub struct ModPreset {
    pub id: String,
    pub name: String,
    pub description: Option<String>,
    pub mods: Vec<String>,
    pub created_at: String,
    pub updated_at: String,
}

/// The mathematical value of a [`ModPreset`].
pub struct PresetV {
    pub id: Seq<char>,
    pub name: Seq<char>,
    pub description: Option<Seq<char>>,
    pub mods: Seq<Seq<char>>,
    pub created_at: Seq<char>,
    pub updated_at: Seq<char>,
}

impl View for ModPreset {
    type V = PresetV;

    open spec fn view(&self) -> PresetV {
        PresetV {
            id: self.id@,
            name: self.name@,
            description: match self.description {
                Some(d) => Some(d@),
                None => None,
            },
            mods: self.mods@.map_values(|s: String| s@),
            created_at: self.created_at@,
            updated_at: self.updated_at@,
        }
    }
}

fn clone_string_vec(v: &Vec<String>) -> (r: Vec<String>)
    ensures
        r@.map_values(|s: String| s@) == v@.map_values(|s: String| s@),
{
    let mut out: Vec<String> = Vec::new();
    let n = v.len();
    for i in 0..n
        invariant
            n == v@.len(),
            out@.map_values(|s: String| s@) == v@.map_values(|s: String| s@).subrange(
                0,
                i as int,
            ),
    {
        let ghost ov = out@.map_values(|s: String| s@);
        out.push(v[i].clone());
        proof {
            assert(out@.map_values(|s: String| s@) =~= ov.push(v@[i as int]@));
            assert(ov.push(v@[i as int]@) =~= v@.map_values(|s: String| s@).subrange(
                0,
                i + 1 as int,
            ));
        }
    }
    proof {
        assert(v@.map_values(|s: String| s@).subrange(0, n as int) =~= v@.map_values(
            |s: String| s@,
        ));
    }
    out
}

impl ModPreset {
    /// A field-for-field copy.
    pub fn duplicate(&self) -> (r: Self)
        ensures
            r@ == self@,
    {
        let r = ModPreset {
            id: self.id.clone(),
            name: self.name.clone(),
            description: match &self.description {
                Some(d) => Some(d.clone()),
                None => None,
            },
            mods: clone_string_vec(&self.mods),
            created_at: self.created_at.clone(),
            updated_at: self.updated_at.clone(),
        };
        proof {
            assert(r@.mods =~= self@.mods);
        }
        r
    }

    /// A fresh preset: a new random id, the given name, description and
    /// mod paths, and equal creation and update stamps.
    pub fn new(name: String, description: Option<String>, mods: Vec<String>) -> (r: Self)
        ensures
            r@.name == name@,
            r@.description == (match description {
                Some(d) => Some(d@),
                None => None::<Seq<char>>,
            }),
            r@.mods == mods@.map_values(|s: String| s@),
            r@.created_at == r@.updated_at,
    {
        let now = now_utc_string();
        let id = new_uuid_string();
        ModPreset {
            id,
            name,
            description,
            mods,
            created_at: now.clone(),
            updated_at: now,
        }
    }
}

/// Where the preset of a given id sits, scanning from the front; the
/// list's length when there is none.
pub open spec fn spec_preset_pos(ps: Seq<PresetV>, id: Seq<char>) -> int
    decreases ps.len(),
{
    if ps.len() == 0 {
        0
    } else if ps[0].id == id {
        0
    } else {
        1 + spec_preset_pos(ps.drop_first(), id)
    }
}

proof fn lemma_preset_pos_at(ps: Seq<PresetV>, id: Seq<char>, k: int)
    requires
        0 <= k <= ps.len(),
        forall|j: int| 0 <= j < k ==> (#[trigger] ps[j]).id != id,
        k == ps.len() || ps[k].id == id,
    ensures
        spec_preset_pos(ps, id) == k,
    decreases k,
{
    if k == 0 {
    } else {
        assert(ps[0].id != id);
        lemma_preset_pos_at(ps.drop_first(), id, k - 1);
    }
}

/// The preset after an update: the chosen fields replaced, the id and
/// creation stamp kept, the update stamp refreshed.
pub open spec fn spec_updated_preset(
    p: PresetV,
    name: Option<Seq<char>>,
    description: Option<Seq<char>>,
    mods: Option<Seq<Seq<char>>>,
    now: Seq<char>,
) -> PresetV {
    PresetV {
        id: p.id,
        name: match name {
            Some(n) => n,
            None => p.name,
        },
        description: match description {
            Some(d) => Some(d),
            None => p.description,
        },
        mods: match mods {
            Some(m) => m,
            None => p.mods,
        },
        created_at: p.created_at,
        updated_at: now,
    }
}

/// Asked of a preset id that the list does not hold.
#[derive(Debug)]
pub enum PresetError {
    NotFound,
}

/// Update the first preset of the given id: replace the fields that
/// were handed in, refresh its update stamp, leave every other preset
/// alone, and return a copy of the result.  Fails exactly when no
/// preset carries the id, and then changes nothing.
#[verifier::loop_isolation(false)]
pub fn update_mod_preset(
    presets: &mut Vec<ModPreset>,
    preset_id: &String,
    name: Option<String>,
    description: Option<String>,
    mod_paths: Option<Vec<String>>,
    now: String,
) -> (r: Result<ModPreset, PresetError>)
    ensures
        ({
            let ps = old(presets)@.map_values(|p: ModPreset| p@);
            let fs = final(presets)@.map_values(|p: ModPreset| p@);
            match r {
                Ok(updated) => {
                    let j = spec_preset_pos(ps, preset_id@);
                    &&& 0 <= j < ps.len()
                    &&& ps[j].id == preset_id@
                    &&& fs.len() == ps.len()
                    &&& fs[j] == spec_updated_preset(
                        ps[j],
                        match name {
                            Some(n) => Some(n@),
                            None => None::<Seq<char>>,
                        },
                        match description {
                            Some(d) => Some(d@),
                            None => None::<Seq<char>>,
                        },
                        match mod_paths {
                            Some(m) => Some(m@.map_values(|s: String| s@)),
                            None => None::<Seq<Seq<char>>>,
                        },
                        now@,
                    )
                    &&& forall|k: int| 0 <= k < ps.len() && k != j ==> fs[k] == ps[k]
                    &&& updated@ == fs[j]
                },
                Err(_) => {
                    &&& fs == ps
                    &&& forall|k: int| 0 <= k < ps.len() ==> (#[trigger] ps[k]).id != preset_id@
                },
            }
        }),
{
    let ghost ps = presets@.map_values(|p: ModPreset| p@);
    let n = presets.len();
    let mut i: usize = 0;
    while i < n
        invariant
            i <= n,
            n == presets@.len(),
            presets@.map_values(|p: ModPreset| p@) == ps,
            forall|j: int| 0 <= j < i ==> (#[trigger] ps[j]).id != preset_id@,
        decreases n - i,
    {
        if presets[i].id.eq(preset_id) {
            proof {
                lemma_preset_pos_at(ps, preset_id@, i as int);
            }
            let old_p = &presets[i];
            let updated = ModPreset {
                id: old_p.id.clone(),
                name: match name {
                    Some(nm) => nm,
                    None => old_p.name.clone(),
                },
                description: match description {
                    Some(d) => Some(d),
                    None => match &old_p.description {
                        Some(d) => Some(d.clone()),
                        None => None,
                    },
                },
                mods: match mod_paths {
                    Some(m) => m,
                    None => clone_string_vec(&old_p.mods),
                },
                created_at: old_p.created_at.clone(),
                updated_at: now,
            };
            let copy = updated.duplicate();
            proof {
                assert(updated@.mods =~= spec_updated_preset(
                    ps[i as int],
                    match name {
                        Some(nm) => Some(nm@),
                        None => None::<Seq<char>>,
                    },
                    match description {
                        Some(d) => Some(d@),
                        None => None::<Seq<char>>,
                    },
                    match mod_paths {
                        Some(m) => Some(m@.map_values(|s: String| s@)),
                        None => None::<Seq<Seq<char>>>,
                    },
                    now@,
                ).mods);
            }
            presets.set(i, updated);
            proof {
                assert(presets@.map_values(|p: ModPreset| p@) =~= ps.update(
                    i as int,
                    presets@[i as int]@,
                ));
            }
            return Ok(copy);
        }
        i = i + 1;
    }
    Err(PresetError::NotFound)
}

/// Remove every preset of the given id.  Fails exactly when no preset
/// carries the id, and then changes nothing (the filter keeps
/// everything).
#[verifier::loop_isolation(false)]
pub fn delete_mod_preset(presets: &mut Vec<ModPreset>, preset_id: &String) -> (r: Result<
    (),
    PresetError,
>)
    ensures
        ({
            let ps = old(presets)@.map_values(|p: ModPreset| p@);
            let fs = final(presets)@.map_values(|p: ModPreset| p@);
            &&& fs == ps.filter(|p: PresetV| p.id != preset_id@)
            &&& (r is Ok <==> exists|k: int| 0 <= k < ps.len() && (#[trigger] ps[k]).id
                == preset_id@)
        }),
{
    let ghost ps = presets@.map_values(|p: ModPreset| p@);
    let mut kept: Vec<ModPreset> = Vec::new();
    let mut found = false;
    let n = presets.len();
    proof {
        reveal(Seq::filter);
        assert(ps.subrange(0, 0) =~= Seq::<PresetV>::empty());
    }
    for i in 0..n
        invariant
            n == presets@.len(),
            presets@.map_values(|p: ModPreset| p@) == ps,
            kept@.map_values(|p: ModPreset| p@) == ps.subrange(0, i as int).filter(
                |p: PresetV| p.id != preset_id@,
            ),
            found <==> exists|k: int| 0 <= k < i && (#[trigger] ps[k]).id == preset_id@,
    {
        let ghost pre = ps.subrange(0, i as int);
        let ghost kv = kept@.map_values(|p: ModPreset| p@);
        if presets[i].id.eq(preset_id) {
            found = true;
        } else {
            kept.push(presets[i].duplicate());
            proof {
                assert(kept@.map_values(|p: ModPreset| p@) =~= kv.push(ps[i as int]));
            }
        }
        proof {
            reveal(Seq::filter);
            assert(pre.push(ps[i as int]).drop_last() =~= pre);
            assert(pre.push(ps[i as int]).last() == ps[i as int]);
            assert(pre.push(ps[i as int]) =~= ps.subrange(0, i + 1 as int));
        }
    }
    proof {
        assert(ps.subrange(0, n as int) =~= ps);
    }
    *presets = kept;
    if found {
        Ok(())
    } else {
        Err(PresetError::NotFound)
    }
}

/// A preset is applied by handing its mod paths to the caller.
pub fn apply_mod_preset(preset: ModPreset) -> (r: Vec<String>)
    ensures
        r == preset.mods,
{
    preset.mods
}

/// The launcher's persisted settings.
pub struct AppSettings {
    pub arma3_directory: String,
    pub steam_library_path: String,
    pub custom_mods_directory: String,
    pub server_address: String,
    pub server_password: String,
    pub battle_eye_enabled: bool,
    pub startup_parameters: String,
    pub auto_update_enabled: bool,
}

impl Default for AppSettings {
    /// Fresh settings: everything empty, a loopback server address,
    /// BattlEye on, automatic updates off.
    fn default() -> (r: Self)
        ensures
            r.arma3_directory@ == Seq::<char>::empty(),
            r.steam_library_path@ == Seq::<char>::empty(),
            r.custom_mods_directory@ == Seq::<char>::empty(),
            r.server_address@ == "127.0.0.1:2302"@,
            r.server_password@ == Seq::<char>::empty(),
            r.battle_eye_enabled == true,
            r.startup_parameters@ == Seq::<char>::empty(),
            r.auto_update_enabled == false,
    {
        AppSettings {
            arma3_directory: String::new(),
            steam_library_path: String::new(),
            custom_mods_directory: String::new(),
            server_address: String::from_str("127.0.0.1:2302"),
            server_password: String::new(),
            battle_eye_enabled: true,
            startup_parameters: String::new(),
            auto_update_enabled: false,
        }
    }
}

} // verus!
