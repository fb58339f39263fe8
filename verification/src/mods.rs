//! Describing the mods already present on disk.
//!
//! Directory walking stays with the caller; these functions take what a
//! scan finds — a directory's name, the text of its meta files, its
//! extension files' names and bytes — and decide what it means: the
//! mod's display name, its kind, its workshop id, and which native
//! extension libraries qualify.

use vstd::prelude::*;
use vstd::string::StrSliceExecFns;
use vstd::string::StringExecFns;
use crate::catalog::{drop_back_while, drop_front_while, is_space};
use crate::strings::{chars_to_string, str_to_chars};

verus! {

/// One mod found on disk.
pub struct ModInfo {
    pub name: String,
    pub path: String,
    pub enabled: bool,
    pub mod_type: String,
    pub workshop_id: Option<String>,
    pub size: Option<u64>,
    pub last_modified: Option<String>,
    pub extensions: Vec<String>,
}

/// The mathematical value of a [`ModInfo`].
pub struct ModInfoV {
    pub name: Seq<char>,
    pub path: Seq<char>,
    pub enabled: bool,
    pub mod_type: Seq<char>,
    pub workshop_id: Option<Seq<char>>,
    pub size: Option<u64>,
    pub last_modified: Option<Seq<char>>,
    pub extensions: Seq<Seq<char>>,
}

impl View for ModInfo {
    type V = ModInfoV;

    open spec fn view(&self) -> ModInfoV {
        ModInfoV {
            name: self.name@,
            path: self.path@,
            enabled: self.enabled,
            mod_type: self.mod_type@,
            workshop_id: match self.workshop_id {
                Some(w) => Some(w@),
                None => None,
            },
            size: self.size,
            last_modified: match self.last_modified {
                Some(m) => Some(m@),
                None => None,
            },
            extensions: self.extensions@.map_values(|s: String| s@),
        }
    }
}

pub open spec fn is_digit_char(c: char) -> bool {
    48 <= c as u32 <= 57
}

pub open spec fn spec_all_digits(s: Seq<char>) -> bool {
    forall|i: int| 0 <= i < s.len() ==> is_digit_char(#[trigger] s[i])
}

/// Whether a directory name is all ASCII digits (a workshop item id).
pub fn all_digits(name: &String) -> (r: bool)
    ensures
        r == spec_all_digits(name@),
{
    let cs = str_to_chars(name.as_str());
    let n = cs.len();
    for i in 0..n
        invariant
            n == cs@.len(),
            cs@ == name@,
            forall|k: int| 0 <= k < i ==> is_digit_char(#[trigger] cs@[k]),
    {
        let c = cs[i];
        if (c as u32) < 48 || (c as u32) > 57 {
            return false;
        }
    }
    true
}

/// A workshop mod named by digits alone carries its directory name as
/// its workshop id.
pub open spec fn spec_workshop_id(mod_type: Seq<char>, dir_name: Seq<char>) -> Option<Seq<char>> {
    if mod_type == "workshop"@ && spec_all_digits(dir_name) {
        Some(dir_name)
    } else {
        None
    }
}

/// The display name: the meta name where one was asked for and found,
/// the directory name otherwise.
pub open spec fn spec_display_name(
    dir_name: Seq<char>,
    use_meta_name: bool,
    meta_name: Option<Seq<char>>,
) -> Seq<char> {
    if use_meta_name {
        match meta_name {
            Some(m) => m,
            None => dir_name,
        }
    } else {
        dir_name
    }
}

/// What a scanned mod directory means.
pub open spec fn spec_parsed_mod(
    dir_name: Seq<char>,
    path: Seq<char>,
    mod_type: Seq<char>,
    use_meta_name: bool,
    meta_name: Option<Seq<char>>,
    last_modified: Option<Seq<char>>,
    extensions: Seq<Seq<char>>,
    r: ModInfoV,
) -> bool {
    &&& r.name == spec_display_name(dir_name, use_meta_name, meta_name)
    &&& r.path == path
    &&& r.enabled == false
    &&& r.mod_type == mod_type
    &&& r.workshop_id == spec_workshop_id(mod_type, dir_name)
    &&& r.size is None
    &&& r.last_modified == last_modified
    &&& r.extensions == extensions
}

fn parse_mod(
    dir_name: &String,
    path: String,
    mod_type: &str,
    use_meta_name: bool,
    meta_name: Option<String>,
    last_modified: Option<String>,
    extensions: Vec<String>,
) -> (r: ModInfo)
    ensures
        spec_parsed_mod(
            dir_name@,
            path@,
            mod_type@,
            use_meta_name,
            match meta_name {
                Some(m) => Some(m@),
                None => None,
            },
            match last_modified {
                Some(m) => Some(m@),
                None => None,
            },
            extensions@.map_values(|s: String| s@),
            r@,
        ),
{
    let workshop_string = String::from_str("workshop");
    let mod_type_string = String::from_str(mod_type);
    let workshop_id = if mod_type_string.eq(&workshop_string) && all_digits(dir_name) {
        Some(dir_name.clone())
    } else {
        None
    };
    let display_name = if use_meta_name {
        match meta_name {
            Some(m) => m,
            None => dir_name.clone(),
        }
    } else {
        dir_name.clone()
    };
    ModInfo {
        name: display_name,
        path,
        enabled: false,
        mod_type: String::from_str(mod_type),
        workshop_id,
        size: None,
        last_modified,
        extensions,
    }
}

/// A mod from the workshop directory.
pub fn parse_workshop_mod(
    dir_name: &String,
    path: String,
    meta_name: Option<String>,
    last_modified: Option<String>,
    extensions: Vec<String>,
) -> (r: ModInfo)
    ensures
        spec_parsed_mod(
            dir_name@,
            path@,
            "workshop"@,
            true,
            match meta_name {
                Some(m) => Some(m@),
                None => None,
            },
            match last_modified {
                Some(m) => Some(m@),
                None => None,
            },
            extensions@.map_values(|s: String| s@),
            r@,
        ),
{
    parse_mod(dir_name, path, "workshop", true, meta_name, last_modified, extensions)
}

/// A local mod (an `@`-prefixed directory).
pub fn parse_local_mod(
    dir_name: &String,
    path: String,
    meta_name: Option<String>,
    last_modified: Option<String>,
    extensions: Vec<String>,
) -> (r: ModInfo)
    ensures
        spec_parsed_mod(
            dir_name@,
            path@,
            "local"@,
            true,
            match meta_name {
                Some(m) => Some(m@),
                None => None,
            },
            match last_modified {
                Some(m) => Some(m@),
                None => None,
            },
            extensions@.map_values(|s: String| s@),
            r@,
        ),
{
    parse_mod(dir_name, path, "local", true, meta_name, last_modified, extensions)
}

/// A DLC directory; DLCs go by their directory name, never a meta name.
pub fn parse_dlc_mod(
    dir_name: &String,
    path: String,
    last_modified: Option<String>,
    extensions: Vec<String>,
) -> (r: ModInfo)
    ensures
        spec_parsed_mod(
            dir_name@,
            path@,
            "dlc"@,
            false,
            None,
            match last_modified {
                Some(m) => Some(m@),
                None => None,
            },
            extensions@.map_values(|s: String| s@),
            r@,
        ),
{
    parse_mod(dir_name, path, "dlc", false, None, last_modified, extensions)
}

/// A workshop mod found in a custom mods directory.
pub fn parse_custom_workshop_mod(
    dir_name: &String,
    path: String,
    meta_name: Option<String>,
    last_modified: Option<String>,
    extensions: Vec<String>,
) -> (r: ModInfo)
    ensures
        spec_parsed_mod(
            dir_name@,
            path@,
            "workshop"@,
            true,
            match meta_name {
                Some(m) => Some(m@),
                None => None,
            },
            match last_modified {
                Some(m) => Some(m@),
                None => None,
            },
            extensions@.map_values(|s: String| s@),
            r@,
        ),
{
    parse_mod(dir_name, path, "workshop", true, meta_name, last_modified, extensions)
}

/// A local mod found in a custom mods directory.
pub fn parse_custom_local_mod(
    dir_name: &String,
    path: String,
    meta_name: Option<String>,
    last_modified: Option<String>,
    extensions: Vec<String>,
) -> (r: ModInfo)
    ensures
        spec_parsed_mod(
            dir_name@,
            path@,
            "local"@,
            true,
            match meta_name {
                Some(m) => Some(m@),
                None => None,
            },
            match last_modified {
                Some(m) => Some(m@),
                None => None,
            },
            extensions@.map_values(|s: String| s@),
            r@,
        ),
{
    parse_mod(dir_name, path, "local", true, meta_name, last_modified, extensions)
}

// ---------------------------------------------------------------------
// The display name inside meta.cpp / mod.cpp.
// ---------------------------------------------------------------------
/// The index of the first occurrence of a character, or the length.
pub open spec fn first_index_of(p: Seq<char>, c: char) -> int
    decreases p.len(),
{
    if p.len() == 0 {
        0
    } else if p[0] == c {
        0
    } else {
        1 + first_index_of(p.drop_first(), c)
    }
}

/// The index of the last occurrence of a character, or -1.
pub open spec fn last_index_of(p: Seq<char>, c: char) -> int
    decreases p.len(),
{
    if p.len() == 0 {
        -1
    } else if p.last() == c {
        p.len() - 1
    } else {
        last_index_of(p.drop_last(), c)
    }
}

proof fn lemma_first_index_at(p: Seq<char>, c: char, k: int)
    requires
        0 <= k <= p.len(),
        forall|j: int| 0 <= j < k ==> p[j] != c,
        k == p.len() || p[k] == c,
    ensures
        first_index_of(p, c) == k,
    decreases k,
{
    if k == 0 {
    } else {
        assert(p[0] != c);
        lemma_first_index_at(p.drop_first(), c, k - 1);
    }
}

proof fn lemma_last_index_at(p: Seq<char>, c: char, k: int)
    requires
        -1 <= k < p.len(),
        forall|j: int| k < j < p.len() ==> p[j] != c,
        k == -1 || p[k] == c,
    ensures
        last_index_of(p, c) == k,
    decreases p.len() - k,
{
    if k == p.len() - 1 {
    } else {
        assert(p.len() > 0);
        assert(p.last() != c);
        lemma_last_index_at(p.drop_last(), c, k);
    }
}

/// What a config line names: where the trimmed line starts with "name"
/// and holds two distinct quotes, the text between the first and the
/// last quote.
pub open spec fn spec_line_name(line: Seq<char>) -> Option<Seq<char>> {
    let t = drop_back_while(drop_front_while(line, |c: char| is_space(c)), |c: char| is_space(c));
    if t.len() >= 4 && t.subrange(0, 4) == "name"@ {
        let a = first_index_of(t, '"');
        let b = last_index_of(t, '"');
        if a < b {
            Some(t.subrange(a + 1, b))
        } else {
            None
        }
    } else {
        None
    }
}

/// The name a config file carries: the first line that starts with
/// "name" and holds a quoted value decides.
pub open spec fn spec_meta_name(content: Seq<char>) -> Option<Seq<char>>
    decreases content.len(),
{
    let k = first_index_of(content, '\n');
    if !(0 <= k < content.len()) {
        spec_line_name(content)
    } else {
        match spec_line_name(content.take(k)) {
            Some(n) => Some(n),
            None => spec_meta_name(content.skip(k + 1)),
        }
    }
}

/// Extract one line's quoted name, if any.
#[verifier::loop_isolation(false)]
fn line_name(cs: &Vec<char>, lo: usize, hi: usize) -> (r: Option<String>)
    requires
        lo <= hi <= cs@.len(),
    ensures
        match r {
            Some(nm) => spec_line_name(cs@.subrange(lo as int, hi as int)) == Some(nm@),
            None => spec_line_name(cs@.subrange(lo as int, hi as int)) is None,
        },
{
    let ghost line = cs@.subrange(lo as int, hi as int);
    // trim ASCII whitespace from both ends
    let mut a = lo;
    while a < hi && (cs[a] == ' ' || cs[a] == '\t' || cs[a] == '\n' || cs[a] == '\r')
        invariant
            lo <= a <= hi,
            forall|k: int| lo <= k < a ==> is_space(cs@[k]),
        decreases hi - a,
    {
        a = a + 1;
    }
    let mut b = hi;
    while b > a && (cs[b - 1] == ' ' || cs[b - 1] == '\t' || cs[b - 1] == '\n' || cs[b - 1]
        == '\r')
        invariant
            a <= b <= hi,
            forall|k: int| b <= k < hi ==> is_space(cs@[k]),
        decreases b,
    {
        b = b - 1;
    }
    let ghost t = cs@.subrange(a as int, b as int);
    proof {
        assert forall|k: int| 0 <= k < a - lo implies is_space(#[trigger] line[k]) by {
            assert(line[k] == cs@[lo + k]);
        }
        assert forall|k: int| b - lo <= k < line.len() implies is_space(#[trigger] line[k]) by {
            assert(line[k] == cs@[lo + k]);
        }
        if a < hi {
            assert(line[a - lo] == cs@[a as int]);
        }
        if b > a {
            assert(line[b - lo - 1] == cs@[b - 1]);
        }
        crate::catalog::lemma_trim_indices(line, a - lo, b - lo);
        assert(line.skip(a - lo).take(b - a) =~= t);
    }
    // the trimmed line must start with "name"
    if b - a < 4 {
        return None;
    }
    if !(cs[a] == 'n' && cs[a + 1] == 'a' && cs[a + 2] == 'm' && cs[a + 3] == 'e') {
        proof {
            reveal_strlit("name");
            assert(t.subrange(0, 4)[0] == cs@[a as int]);
            assert(t.subrange(0, 4)[1] == cs@[a + 1]);
            assert(t.subrange(0, 4)[2] == cs@[a + 2]);
            assert(t.subrange(0, 4)[3] == cs@[a + 3]);
        }
        return None;
    }
    proof {
        reveal_strlit("name");
        assert(t.subrange(0, 4) =~= "name"@);
    }
    // the first and last quote inside the trimmed line
    let mut qa = a;
    while qa < b && cs[qa] != '"'
        invariant
            a <= qa <= b,
            forall|k: int| a <= k < qa ==> cs@[k] != '"',
        decreases b - qa,
    {
        qa = qa + 1;
    }
    if qa == b {
        // no quote at all
        proof {
            lemma_first_index_at(t, '"', b - a);
            lemma_last_index_at(t, '"', -1);
        }
        return None;
    }
    let mut qb = b;
    while qb > a && cs[qb - 1] != '"'
        invariant
            a <= qb <= b,
            forall|k: int| qb <= k < b ==> cs@[k] != '"',
        decreases qb,
    {
        qb = qb - 1;
    }
    proof {
        lemma_first_index_at(t, '"', qa - a);
        assert(cs@[qb - 1] == '"');
        lemma_last_index_at(t, '"', qb - 1 - a);
    }
    if !(qa < qb - 1) {
        return None;
    }
    let mut out: Vec<char> = Vec::new();
    let mut i = qa + 1;
    while i < qb - 1
        invariant
            qa + 1 <= i <= qb - 1 <= cs@.len(),
            out@ == cs@.subrange(qa + 1 as int, i as int),
        decreases qb - i,
    {
        out.push(cs[i]);
        proof {
            assert(out@ =~= cs@.subrange(qa + 1 as int, i + 1 as int));
        }
        i = i + 1;
    }
    proof {
        assert(t.subrange(qa - a + 1, qb - 1 - a) =~= cs@.subrange(qa + 1 as int, qb - 1 as int));
    }
    Some(chars_to_string(&out))
}

/// The display name written in a mod's meta.cpp or mod.cpp: the first
/// line starting with "name" that carries a quoted value.
#[verifier::loop_isolation(false)]
pub fn extract_name_from_config(content: &String) -> (r: Option<String>)
    ensures
        match r {
            Some(nm) => spec_meta_name(content@) == Some(nm@),
            None => spec_meta_name(content@) is None,
        },
{
    let cs = str_to_chars(content.as_str());
    let n = cs.len();
    let mut start: usize = 0;
    proof {
        assert(cs@.skip(0) =~= cs@);
    }
    loop
        invariant
            start <= n,
            n == cs@.len(),
            cs@ == content@,
            spec_meta_name(content@) == spec_meta_name(cs@.skip(start as int)),
        decreases n - start,
    {
        // find the end of this line
        let mut e = start;
        while e < n && cs[e] != '\n'
            invariant
                start <= e <= n,
                forall|k: int| start <= k < e ==> cs@[k] != '\n',
            decreases n - e,
        {
            e = e + 1;
        }
        let ghost tail = cs@.skip(start as int);
        proof {
            if e < n {
                assert(tail[e - start] == '\n');
                lemma_first_index_at(tail, '\n', e - start);
            } else {
                lemma_first_index_at(tail, '\n', tail.len() as int);
            }
        }
        let found = line_name(&cs, start, e);
        match found {
            Some(nm) => {
                proof {
                    if e < n {
                        assert(tail.take(e - start) =~= cs@.subrange(start as int, e as int));
                    } else {
                        assert(tail =~= cs@.subrange(start as int, e as int));
                    }
                }
                return Some(nm);
            },
            None => {
                proof {
                    if e < n {
                        assert(tail.take(e - start) =~= cs@.subrange(start as int, e as int));
                        assert(tail.skip(e - start + 1) =~= cs@.skip(e + 1));
                    } else {
                        assert(tail =~= cs@.subrange(start as int, e as int));
                    }
                }
                if e == n {
                    return None;
                }
                start = e + 1;
            },
        }
    }
}

// ---------------------------------------------------------------------
// Native extension files.
// ---------------------------------------------------------------------
/// How one file in an extension directory is treated.
pub enum ExtensionKind {
    /// A Windows library: include it only if its image is 64-bit.
    WindowsLibrary,
    /// A shared object: included as is.
    SharedObject,
    /// Anything else: ignored.
    Other,
}

/// Classify a file by its extension: "dll" must pass the 64-bit check,
/// "so" is taken as is, everything else is ignored.
pub fn classify_extension(ext: &String) -> (r: ExtensionKind)
    ensures
        ext@ == "dll"@ ==> r is WindowsLibrary,
        ext@ == "so"@ ==> r is SharedObject,
        ext@ != "dll"@ && ext@ != "so"@ ==> r is Other,
{
    let dll = String::from_str("dll");
    let so = String::from_str("so");
    proof {
        reveal_strlit("dll");
        reveal_strlit("so");
        assert("dll"@.len() == 3);
        assert("so"@.len() == 2);
    }
    if ext.eq(&dll) {
        ExtensionKind::WindowsLibrary
    } else if ext.eq(&so) {
        ExtensionKind::SharedObject
    } else {
        ExtensionKind::Other
    }
}

/// A 32-bit little-endian value.
pub open spec fn spec_le32(b0: u8, b1: u8, b2: u8, b3: u8) -> int {
    b0 + 256 * b1 + 65536 * b2 + 16777216 * b3
}

/// Whether the bytes are a 64-bit Windows library image: the DOS
/// header's magic, the PE signature at the offset the DOS header
/// names, and the x86-64 machine type.
pub open spec fn spec_is_64bit_dll(d: Seq<u8>) -> bool {
    &&& d.len() > 64
    &&& d[0] == 0x4d
    &&& d[1] == 0x5a
    &&& ({
        let pe = spec_le32(d[60], d[61], d[62], d[63]);
        &&& d.len() > pe + 24
        &&& d[pe] == 0x50
        &&& d[pe + 1] == 0x45
        &&& d[pe + 2] == 0x00
        &&& d[pe + 3] == 0x00
        &&& (d[pe + 4] + 256 * (d[pe + 5] as int) == 0x8664)
    })
}

/// Decide whether a library file is a 64-bit Windows image.  Anything
/// that cannot be recognized counts as not 64-bit, the safe default.
pub fn is_64bit_dll(data: &Vec<u8>) -> (r: bool)
    ensures
        r == spec_is_64bit_dll(data@),
{
    if data.len() <= 64 {
        return false;
    }
    if !(data[0] == 0x4d && data[1] == 0x5a) {
        return false;
    }
    let pe: u64 = (data[60] as u64) + 256 * (data[61] as u64) + 65536 * (data[62] as u64)
        + 16777216 * (data[63] as u64);
    if !((data.len() as u64) > pe + 24) {
        return false;
    }
    let p = pe as usize;
    if !(data[p] == 0x50 && data[p + 1] == 0x45 && data[p + 2] == 0x00 && data[p + 3] == 0x00) {
        return false;
    }
    let machine: u32 = (data[p + 4] as u32) + 256 * (data[p + 5] as u32);
    machine == 0x8664
}


// ---------------------------------------------------------------------
// What a directory scan keeps and what it skips.
// ---------------------------------------------------------------------
/// Whether a name starts with the given character.
pub fn name_starts_with(name: &String, c: char) -> (r: bool)
    ensures
        r == (name@.len() > 0 && name@[0] == c),
{
    let n = name.as_str().unicode_len();
    if n == 0 {
        return false;
    }
    let first = name.as_str().get_char(0);
    first == c
}

/// The Steam metadata folder inside workshop directories, never a mod.
pub fn is_workshop_metadata_dir(name: &String) -> (r: bool)
    ensures
        r == (name@ == "!DO_NOT_CHANGE_FILES_IN_THESE_FOLDERS"@),
{
    let meta = String::from_str("!DO_NOT_CHANGE_FILES_IN_THESE_FOLDERS");
    name.eq(&meta)
}

/// The DLCs the game loads by itself; a scan does not report them.
pub fn is_default_dlc(name: &String) -> (r: bool)
    ensures
        r == (name@ == "Argo"@ || name@ == "Mark"@ || name@ == "Heli"@ || name@ == "Kart"@
            || name@ == "Curator"@ || name@ == "Expansion"@ || name@ == "Orange"@ || name@
            == "AoW"@ || name@ == "Tank"@ || name@ == "Jets"@ || name@ == "Tacops"@ || name@
            == "Enoch"@),
{
    name.eq(&String::from_str("Argo")) || name.eq(&String::from_str("Mark")) || name.eq(
        &String::from_str("Heli"),
    ) || name.eq(&String::from_str("Kart")) || name.eq(&String::from_str("Curator")) || name.eq(
        &String::from_str("Expansion"),
    ) || name.eq(&String::from_str("Orange")) || name.eq(&String::from_str("AoW")) || name.eq(
        &String::from_str("Tank"),
    ) || name.eq(&String::from_str("Jets")) || name.eq(&String::from_str("Tacops")) || name.eq(
        &String::from_str("Enoch"),
    )
}

/// Directories in the game root that never hold a DLC.
pub fn is_skipped_root_dir(name: &String) -> (r: bool)
    ensures
        r == ((name@.len() > 0 && (name@[0] == '@' || name@[0] == '!')) || name@ == "Addons"@
            || name@ == "Dta"@ || name@ == "DirectX"@ || name@ == "BattlEye"@),
{
    name_starts_with(name, '@') || name_starts_with(name, '!') || name.eq(
        &String::from_str("Addons"),
    ) || name.eq(&String::from_str("Dta")) || name.eq(&String::from_str("DirectX")) || name.eq(
        &String::from_str("BattlEye"),
    )
}

/// Whether a directory in a custom mods folder looks like a mod: an
/// `@`-prefixed name or a numeric workshop id.
pub fn is_custom_mod_dir(name: &String) -> (r: bool)
    ensures
        r == ((name@.len() > 0 && name@[0] == '@') || spec_all_digits(name@)),
{
    name_starts_with(name, '@') || all_digits(name)
}

/// The display name for a DLC directory.
pub fn dlc_display_name(dir_name: &String) -> (r: String)
    ensures
        dir_name@ == "CSLA"@ ==> r@ == "CSLA Iron Curtain"@,
        dir_name@ == "vn"@ ==> r@ == "S.O.G. Prairie Fire"@,
        dir_name@ == "GM"@ ==> r@ == "Global Mobilization"@,
        dir_name@ == "WS"@ ==> r@ == "Western Sahara"@,
        dir_name@ == "EF"@ ==> r@ == "Expeditionary Forces"@,
        dir_name@ == "RF"@ ==> r@ == "Reaction Forces"@,
        dir_name@ == "SPE"@ ==> r@ == "Spearhead 1944"@,
        (dir_name@ != "CSLA"@ && dir_name@ != "vn"@ && dir_name@ != "GM"@ && dir_name@ != "WS"@
            && dir_name@ != "EF"@ && dir_name@ != "RF"@ && dir_name@ != "SPE"@) ==> r@
            == dir_name@,
{
    proof {
        reveal_strlit("CSLA");
        reveal_strlit("vn");
        reveal_strlit("GM");
        reveal_strlit("WS");
        reveal_strlit("EF");
        reveal_strlit("RF");
        reveal_strlit("SPE");
        assert("CSLA"@.len() == 4);
        assert("SPE"@.len() == 3);
        assert("vn"@.len() == 2);
        assert("GM"@.len() == 2);
        assert("WS"@.len() == 2);
        assert("EF"@.len() == 2);
        assert("RF"@.len() == 2);
        // the two-letter keys differ in their first character
        assert("vn"@[0] != "GM"@[0]);
        assert("vn"@[0] != "WS"@[0]);
        assert("vn"@[0] != "EF"@[0]);
        assert("vn"@[0] != "RF"@[0]);
        assert("GM"@[0] != "WS"@[0]);
        assert("GM"@[0] != "EF"@[0]);
        assert("GM"@[0] != "RF"@[0]);
        assert("WS"@[0] != "EF"@[0]);
        assert("WS"@[0] != "RF"@[0]);
        assert("EF"@[0] != "RF"@[0]);
    }
    if dir_name.eq(&String::from_str("CSLA")) {
        String::from_str("CSLA Iron Curtain")
    } else if dir_name.eq(&String::from_str("vn")) {
        String::from_str("S.O.G. Prairie Fire")
    } else if dir_name.eq(&String::from_str("GM")) {
        String::from_str("Global Mobilization")
    } else if dir_name.eq(&String::from_str("WS")) {
        String::from_str("Western Sahara")
    } else if dir_name.eq(&String::from_str("EF")) {
        String::from_str("Expeditionary Forces")
    } else if dir_name.eq(&String::from_str("RF")) {
        String::from_str("Reaction Forces")
    } else if dir_name.eq(&String::from_str("SPE")) {
        String::from_str("Spearhead 1944")
    } else {
        dir_name.clone()
    }
}

/// The directories inside a mod that are searched for extension files.
pub fn extension_scan_dirs() -> (r: Vec<String>)
    ensures
        r@.len() == 11,
        r@[0]@ == "addons"@,
        r@[1]@ == "extensions"@,
        r@[2]@ == "dll"@,
        r@[3]@ == "bin"@,
        r@[4]@ == "plugins"@,
        r@[5]@ == "lib"@,
        r@[6]@ == "libs"@,
        r@[7]@ == "Addons"@,
        r@[8]@ == "Extensions"@,
        r@[9]@ == "DLL"@,
        r@[10]@ == "Bin"@,
{
    let mut v: Vec<String> = Vec::new();
    v.push(String::from_str("addons"));
    v.push(String::from_str("extensions"));
    v.push(String::from_str("dll"));
    v.push(String::from_str("bin"));
    v.push(String::from_str("plugins"));
    v.push(String::from_str("lib"));
    v.push(String::from_str("libs"));
    v.push(String::from_str("Addons"));
    v.push(String::from_str("Extensions"));
    v.push(String::from_str("DLL"));
    v.push(String::from_str("Bin"));
    v
}

/// The fallback Steam install locations, after the user's own library
/// path if one was given.
pub fn candidate_steam_paths(user_path: Option<String>) -> (r: Vec<String>)
    ensures
        ({
            match user_path {
                Some(p) => (p@.len() > 0 ==> r@.len() == 3 && r@[0]@ == p@ && r@[1]@
                    == "C:\\Program Files (x86)\\Steam"@ && r@[2]@ == "C:\\Program Files\\Steam"@)
                    && (p@.len() == 0 ==> r@.len() == 2 && r@[0]@
                    == "C:\\Program Files (x86)\\Steam"@ && r@[1]@ == "C:\\Program Files\\Steam"@),
                None => r@.len() == 2 && r@[0]@ == "C:\\Program Files (x86)\\Steam"@ && r@[1]@
                    == "C:\\Program Files\\Steam"@,
            }
        }),
{
    let mut v: Vec<String> = Vec::new();
    match user_path {
        Some(p) => {
            if !p.as_str().is_empty() {
                v.push(p);
            }
        },
        None => {},
    }
    v.push(String::from_str("C:\\Program Files (x86)\\Steam"));
    v.push(String::from_str("C:\\Program Files\\Steam"));
    v
}

} // verus!
