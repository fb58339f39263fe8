//! Assembling the game's launch arguments.
//!
//! Launching the process and copying extension files are the caller's
//! business; the values passed on the command line, and which extension
//! files qualify for copying, are decided here.

use vstd::prelude::*;
use vstd::string::StringExecFns;
use crate::mods::{ModInfo, ModInfoV};
use crate::strings::{spec_dec, u64_to_string};

verus! {

/// Mod paths joined with ';'.
pub open spec fn spec_join_semi(paths: Seq<Seq<char>>) -> Seq<char>
    decreases paths.len(),
{
    if paths.len() == 0 {
        Seq::empty()
    } else if paths.len() == 1 {
        paths[0]
    } else {
        paths[0] + seq![';'] + spec_join_semi(paths.drop_first())
    }
}

proof fn lemma_join_semi_snoc(paths: Seq<Seq<char>>, p: Seq<char>)
    ensures
        paths.len() == 0 ==> spec_join_semi(paths.push(p)) == p,
        paths.len() > 0 ==> spec_join_semi(paths.push(p)) == spec_join_semi(paths) + seq![';']
            + p,
    decreases paths.len(),
{
    if paths.len() == 0 {
        assert(spec_join_semi(paths.push(p)) == paths.push(p)[0]);
    } else if paths.len() == 1 {
        reveal_with_fuel(spec_join_semi, 2);
        assert(paths.push(p).drop_first() =~= seq![p]);
        assert(spec_join_semi(paths.push(p)) =~= spec_join_semi(paths) + seq![';'] + p);
    } else {
        assert(paths.push(p).drop_first() =~= paths.drop_first().push(p));
        lemma_join_semi_snoc(paths.drop_first(), p);
        assert(spec_join_semi(paths.push(p)) =~= spec_join_semi(paths) + seq![';'] + p);
    }
}

/// The `-mod=` argument: the mod paths joined with ';'.
#[verifier::loop_isolation(false)]
pub fn mod_arg(mod_paths: &Vec<String>) -> (r: String)
    ensures
        r@ == "-mod="@ + spec_join_semi(mod_paths@.map_values(|s: String| s@)),
{
    let ghost pv = mod_paths@.map_values(|s: String| s@);
    let mut s = String::from_str("-mod=");
    let n = mod_paths.len();
    proof {
        assert(pv.subrange(0, 0) =~= Seq::<Seq<char>>::empty());
        assert(s@ =~= "-mod="@ + spec_join_semi(pv.subrange(0, 0)));
    }
    for i in 0..n
        invariant
            s@ == "-mod="@ + spec_join_semi(pv.subrange(0, i as int)),
    {
        let ghost pre = pv.subrange(0, i as int);
        if i > 0 {
            s.append(";");
            proof {
                reveal_strlit(";");
            }
        }
        s.append(mod_paths[i].as_str());
        proof {
            lemma_join_semi_snoc(pre, pv[i as int]);
            assert(pre.push(pv[i as int]) =~= pv.subrange(0, i + 1 as int));
            if i > 0 {
                assert(";"@ =~= seq![';']) by {
                    reveal_strlit(";");
                }
                assert(s@ =~= "-mod="@ + (spec_join_semi(pre) + seq![';'] + pv[i as int]));
            } else {
                assert(spec_join_semi(pre) =~= Seq::<char>::empty());
                assert(s@ =~= "-mod="@ + pv[i as int]);
            }
        }
    }
    proof {
        assert(pv.subrange(0, n as int) =~= pv);
    }
    s
}

/// The `-connect=` argument.
pub fn connect_arg(address: &String) -> (r: String)
    ensures
        r@ == "-connect="@ + address@,
{
    let mut s = String::from_str("-connect=");
    s.append(address.as_str());
    s
}

/// The `-password=` argument.
pub fn password_arg(password: &String) -> (r: String)
    ensures
        r@ == "-password="@ + password@,
{
    let mut s = String::from_str("-password=");
    s.append(password.as_str());
    s
}

/// The executable to start: the BattlEye launcher when BattlEye is on,
/// the plain one otherwise, in the 64-bit flavor when asked for.
pub fn launcher_exe_name(battle_eye: bool, x64: bool) -> (r: String)
    ensures
        battle_eye && x64 ==> r@ == "arma3battleye_x64.exe"@,
        battle_eye && !x64 ==> r@ == "arma3battleye.exe"@,
        !battle_eye && x64 ==> r@ == "arma3_x64.exe"@,
        !battle_eye && !x64 ==> r@ == "arma3.exe"@,
{
    if battle_eye {
        if x64 {
            String::from_str("arma3battleye_x64.exe")
        } else {
            String::from_str("arma3battleye.exe")
        }
    } else {
        if x64 {
            String::from_str("arma3_x64.exe")
        } else {
            String::from_str("arma3.exe")
        }
    }
}

pub open spec fn spec_ends_with(p: Seq<char>, suffix: Seq<char>) -> bool {
    p.len() >= suffix.len() && p.subrange(p.len() - suffix.len(), p.len() as int) == suffix
}

/// Whether a string ends with the given suffix.
#[verifier::loop_isolation(false)]
pub fn string_ends_with(s: &String, suffix: &String) -> (r: bool)
    ensures
        r == spec_ends_with(s@, suffix@),
{
    let cs = crate::strings::str_to_chars(s.as_str());
    let ss = crate::strings::str_to_chars(suffix.as_str());
    let n = cs.len();
    let m = ss.len();
    if m > n {
        return false;
    }
    let off = n - m;
    for i in 0..m
        invariant
            forall|k: int| 0 <= k < i ==> cs@[off + k] == ss@[k],
    {
        if cs[off + i] != ss[i] {
            proof {
                assert(s@.subrange(n - m, n as int)[i as int] == cs@[off + i]);
            }
            return false;
        }
    }
    proof {
        assert(s@.subrange(n - m, n as int) =~= suffix@);
    }
    true
}

/// Whether some mod path points at the Contact expansion, whose Enoch
/// terrain must be loaded alongside it.
pub fn has_contact(mod_paths: &Vec<String>) -> (r: bool)
    ensures
        r == exists|i: int|
            0 <= i < mod_paths@.len() && (spec_ends_with(
                (#[trigger] mod_paths@[i])@,
                "Contact"@,
            ) || spec_ends_with(mod_paths@[i]@, "Contact\\"@)),
{
    let plain = String::from_str("Contact");
    let trailing = String::from_str("Contact\\");
    let n = mod_paths.len();
    for i in 0..n
        invariant
            n == mod_paths@.len(),
            plain@ == "Contact"@,
            trailing@ == "Contact\\"@,
            forall|k: int| 0 <= k < i ==> !(spec_ends_with((#[trigger] mod_paths@[k])@, "Contact"@)
                || spec_ends_with(mod_paths@[k]@, "Contact\\"@)),
    {
        if string_ends_with(&mod_paths[i], &plain) || string_ends_with(&mod_paths[i], &trailing) {
            return true;
        }
    }
    false
}

/// The extension files of the enabled mods, in order.
pub open spec fn spec_enabled_extensions(ms: Seq<ModInfoV>) -> Seq<Seq<char>>
    decreases ms.len(),
{
    if ms.len() == 0 {
        Seq::empty()
    } else {
        (if ms[0].enabled {
            ms[0].extensions
        } else {
            Seq::<Seq<char>>::empty()
        }) + spec_enabled_extensions(ms.drop_first())
    }
}

proof fn lemma_enabled_extensions_snoc(ms: Seq<ModInfoV>, m: ModInfoV)
    ensures
        spec_enabled_extensions(ms.push(m)) == spec_enabled_extensions(ms) + (if m.enabled {
            m.extensions
        } else {
            Seq::<Seq<char>>::empty()
        }),
    decreases ms.len(),
{
    if ms.len() == 0 {
        reveal_with_fuel(spec_enabled_extensions, 2);
        assert(ms.push(m).drop_first() =~= Seq::<ModInfoV>::empty());
        assert(spec_enabled_extensions(ms.push(m)) =~= spec_enabled_extensions(ms) + (
        if m.enabled {
            m.extensions
        } else {
            Seq::<Seq<char>>::empty()
        }));
    } else {
        assert(ms.push(m).drop_first() =~= ms.drop_first().push(m));
        lemma_enabled_extensions_snoc(ms.drop_first(), m);
        assert(spec_enabled_extensions(ms.push(m)) =~= spec_enabled_extensions(ms) + (
        if m.enabled {
            m.extensions
        } else {
            Seq::<Seq<char>>::empty()
        }));
    }
}

/// The extension files to copy before a launch: those of the enabled
/// mods, in order.
#[verifier::loop_isolation(false)]
pub fn extensions_to_copy(mods: &Vec<ModInfo>) -> (r: Vec<String>)
    ensures
        r@.map_values(|s: String| s@) == spec_enabled_extensions(
            mods@.map_values(|m: ModInfo| m@),
        ),
{
    let ghost ms = mods@.map_values(|m: ModInfo| m@);
    let mut out: Vec<String> = Vec::new();
    let n = mods.len();
    proof {
        assert(ms.subrange(0, 0) =~= Seq::<ModInfoV>::empty());
        assert(out@.map_values(|s: String| s@) =~= spec_enabled_extensions(ms.subrange(0, 0)));
    }
    for i in 0..n
        invariant
            out@.map_values(|s: String| s@) == spec_enabled_extensions(ms.subrange(0, i as int)),
    {
        let ghost pre = ms.subrange(0, i as int);
        if mods[i].enabled {
            let exts = &mods[i].extensions;
            let m = exts.len();
            let ghost base = out@.map_values(|s: String| s@);
            for j in 0..m
                invariant
                    m == exts@.len(),
                    out@.map_values(|s: String| s@) == base + exts@.map_values(
                        |s: String| s@,
                    ).subrange(0, j as int),
            {
                let ghost ov = out@.map_values(|s: String| s@);
                out.push(exts[j].clone());
                proof {
                    assert(out@.map_values(|s: String| s@) =~= ov.push(exts@[j as int]@));
                    assert(ov.push(exts@[j as int]@) =~= base + exts@.map_values(
                        |s: String| s@,
                    ).subrange(0, j + 1 as int));
                }
            }
            proof {
                assert(exts@.map_values(|s: String| s@).subrange(0, m as int) =~= ms[i as int].extensions);
            }
        }
        proof {
            lemma_enabled_extensions_snoc(pre, ms[i as int]);
            assert(pre.push(ms[i as int]) =~= ms.subrange(0, i + 1 as int));
            if !ms[i as int].enabled {
                assert(spec_enabled_extensions(pre) + Seq::<Seq<char>>::empty()
                    =~= spec_enabled_extensions(pre));
            }
        }
    }
    proof {
        assert(ms.subrange(0, n as int) =~= ms);
    }
    out
}

/// A one-line server summary: "<name> <game> (Players: <n>/<max>)".
pub fn format_server_summary(name: &String, game: &String, players: u64, max_players: u64) -> (r:
    String)
    ensures
        r@ == name@ + " "@ + game@ + " (Players: "@ + spec_dec(players as int) + "/"@ + spec_dec(
            max_players as int,
        ) + ")"@,
{
    let mut s = name.clone();
    s.append(" ");
    s.append(game.as_str());
    s.append(" (Players: ");
    s.append(u64_to_string(players).as_str());
    s.append("/");
    s.append(u64_to_string(max_players).as_str());
    s.append(")");
    s
}

} // verus!
