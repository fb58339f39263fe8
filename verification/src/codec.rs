//! The persisted registry format.
//!
//! A registry is stored as one JSON object,
//! `{"mods":{"<name>":{...record...},...},"lastCheck":"..."}`, with the
//! record fields `name`, `version`, `checksum` (a string or `null`),
//! `installedPath` and `lastUpdated`, always in that order.  Rendering
//! is canonical, and the parser accepts exactly the canonical form;
//! [`lemma_registry_round_trip`] proves that parsing a rendered
//! registry gives the registry back, for every registry with unique
//! names.

use vstd::prelude::*;
use crate::registry::{LocalModRegistry, LocalModVersion, RecordV, RegistryV, unique_names};
use crate::strings::{chars_to_string, str_to_chars};

verus! {

// ---------------------------------------------------------------------
// The grammar's fixed tokens.
// ---------------------------------------------------------------------
pub open spec fn tok_header() -> Seq<char> {
    seq!['{', '"', 'm', 'o', 'd', 's', '"', ':', '{']
}

pub open spec fn tok_mid() -> Seq<char> {
    seq!['}', ',', '"', 'l', 'a', 's', 't', 'C', 'h', 'e', 'c', 'k', '"', ':']
}

pub open spec fn tok_name() -> Seq<char> {
    seq!['{', '"', 'n', 'a', 'm', 'e', '"', ':']
}

pub open spec fn tok_version() -> Seq<char> {
    seq![',', '"', 'v', 'e', 'r', 's', 'i', 'o', 'n', '"', ':']
}

pub open spec fn tok_checksum() -> Seq<char> {
    seq![',', '"', 'c', 'h', 'e', 'c', 'k', 's', 'u', 'm', '"', ':']
}

pub open spec fn tok_path() -> Seq<char> {
    seq![',', '"', 'i', 'n', 's', 't', 'a', 'l', 'l', 'e', 'd', 'P', 'a', 't', 'h', '"', ':']
}

pub open spec fn tok_updated() -> Seq<char> {
    seq![',', '"', 'l', 'a', 's', 't', 'U', 'p', 'd', 'a', 't', 'e', 'd', '"', ':']
}

pub open spec fn tok_null() -> Seq<char> {
    seq!['n', 'u', 'l', 'l']
}

// ---------------------------------------------------------------------
// Rendering, as a mathematical function.
// ---------------------------------------------------------------------
/// A quote or backslash is preceded by a backslash; every other
/// character stands for itself.
pub open spec fn escape_char(c: char) -> Seq<char> {
    if c == '"' || c == '\\' {
        seq!['\\', c]
    } else {
        seq![c]
    }
}

pub open spec fn escape(s: Seq<char>) -> Seq<char>
    decreases s.len(),
{
    if s.len() == 0 {
        Seq::empty()
    } else {
        escape_char(s[0]) + escape(s.drop_first())
    }
}

pub open spec fn render_string(s: Seq<char>) -> Seq<char> {
    seq!['"'] + escape(s) + seq!['"']
}

pub open spec fn render_opt(o: Option<Seq<char>>) -> Seq<char> {
    match o {
        None => tok_null(),
        Some(s) => render_string(s),
    }
}

pub open spec fn render_record(r: RecordV) -> Seq<char> {
    tok_name() + render_string(r.name) + tok_version() + render_string(r.version) + tok_checksum()
        + render_opt(r.checksum) + tok_path() + render_string(r.installed_path) + tok_updated()
        + render_string(r.last_updated) + seq!['}']
}

/// One entry of the "mods" object: the key is the record's name.
pub open spec fn render_entry(r: RecordV) -> Seq<char> {
    render_string(r.name) + seq![':'] + render_record(r)
}

pub open spec fn render_more(ms: Seq<RecordV>) -> Seq<char>
    decreases ms.len(),
{
    if ms.len() == 0 {
        Seq::empty()
    } else {
        seq![','] + render_entry(ms[0]) + render_more(ms.drop_first())
    }
}

pub open spec fn render_records(ms: Seq<RecordV>) -> Seq<char> {
    if ms.len() == 0 {
        Seq::empty()
    } else {
        render_entry(ms[0]) + render_more(ms.drop_first())
    }
}

pub open spec fn render_registry(v: RegistryV) -> Seq<char> {
    tok_header() + render_records(v.mods) + tok_mid() + render_string(v.last_check) + seq!['}']
}

// ---------------------------------------------------------------------
// Facts about rendering used when building output incrementally.
// ---------------------------------------------------------------------
proof fn lemma_escape_snoc(s: Seq<char>, c: char)
    ensures
        escape(s.push(c)) == escape(s) + escape_char(c),
    decreases s.len(),
{
    if s.len() == 0 {
        reveal_with_fuel(escape, 2);
        assert(s.push(c).drop_first() =~= Seq::<char>::empty());
        assert(escape(s.push(c)) =~= escape(s) + escape_char(c));
    } else {
        assert(s.push(c).drop_first() =~= s.drop_first().push(c));
        lemma_escape_snoc(s.drop_first(), c);
        assert(escape(s.push(c)) =~= escape(s) + escape_char(c));
    }
}

proof fn lemma_render_more_snoc(ms: Seq<RecordV>, r: RecordV)
    ensures
        render_more(ms.push(r)) == render_more(ms) + seq![','] + render_entry(r),
    decreases ms.len(),
{
    if ms.len() == 0 {
        reveal_with_fuel(render_more, 2);
        assert(ms.push(r).drop_first() =~= Seq::<RecordV>::empty());
        assert(render_more(ms.push(r)) =~= render_more(ms) + seq![','] + render_entry(r));
    } else {
        assert(ms.push(r).drop_first() =~= ms.drop_first().push(r));
        lemma_render_more_snoc(ms.drop_first(), r);
        assert(render_more(ms.push(r)) =~= render_more(ms) + seq![','] + render_entry(r));
    }
}

proof fn lemma_render_records_snoc(ms: Seq<RecordV>, r: RecordV)
    ensures
        ms.len() == 0 ==> render_records(ms.push(r)) == render_entry(r),
        ms.len() > 0 ==> render_records(ms.push(r)) == render_records(ms) + seq![',']
            + render_entry(r),
{
    if ms.len() == 0 {
        assert(ms.push(r).drop_first() =~= Seq::<RecordV>::empty());
        assert(render_records(ms.push(r)) =~= render_entry(r));
    } else {
        assert(ms.push(r).drop_first() =~= ms.drop_first().push(r));
        lemma_render_more_snoc(ms.drop_first(), r);
        assert(render_records(ms.push(r)) =~= render_records(ms) + seq![','] + render_entry(r));
    }
}

// ---------------------------------------------------------------------
// Rendering, executable.
// ---------------------------------------------------------------------
fn push_quote(out: &mut Vec<char>)
    ensures
        final(out)@ == old(out)@ + seq!['"'],
{
    out.push('"');
    proof {
        assert(out@ =~= old(out)@ + seq!['"']);
    }
}

fn push_rendered_string(out: &mut Vec<char>, s: &String)
    ensures
        final(out)@ == old(out)@ + render_string(s@),
{
    let cs = str_to_chars(s.as_str());
    push_quote(out);
    let n = cs.len();
    let ghost base = out@;
    for i in 0..n
        invariant
            n == cs@.len(),
            cs@ == s@,
            out@ == base + escape(cs@.subrange(0, i as int)),
    {
        let c = cs[i];
        let ghost pre = cs@.subrange(0, i as int);
        if c == '"' || c == '\\' {
            out.push('\\');
            out.push(c);
            proof {
                assert(out@ =~= base + (escape(pre) + escape_char(c)));
            }
        } else {
            out.push(c);
            proof {
                assert(out@ =~= base + (escape(pre) + escape_char(c)));
            }
        }
        proof {
            lemma_escape_snoc(pre, c);
            assert(pre.push(c) =~= cs@.subrange(0, i + 1 as int));
        }
    }
    proof {
        assert(cs@.subrange(0, n as int) =~= cs@);
    }
    push_quote(out);
    proof {
        assert(out@ =~= old(out)@ + render_string(s@));
    }
}

fn push_tok(out: &mut Vec<char>, tok: &Vec<char>)
    ensures
        final(out)@ == old(out)@ + tok@,
{
    let n = tok.len();
    for i in 0..n
        invariant
            n == tok@.len(),
            out@ == old(out)@ + tok@.subrange(0, i as int),
    {
        out.push(tok[i]);
        proof {
            assert(out@ =~= old(out)@ + tok@.subrange(0, i + 1 as int));
        }
    }
    proof {
        assert(tok@.subrange(0, n as int) =~= tok@);
    }
}

fn tok_header_vec() -> (v: Vec<char>)
    ensures
        v@ == tok_header(),
{
    let mut v: Vec<char> = Vec::new();
    v.push('{');
    v.push('"');
    v.push('m');
    v.push('o');
    v.push('d');
    v.push('s');
    v.push('"');
    v.push(':');
    v.push('{');
    proof {
        assert(v@ =~= tok_header());
    }
    v
}

fn tok_mid_vec() -> (v: Vec<char>)
    ensures
        v@ == tok_mid(),
{
    let mut v: Vec<char> = Vec::new();
    v.push('}');
    v.push(',');
    v.push('"');
    v.push('l');
    v.push('a');
    v.push('s');
    v.push('t');
    v.push('C');
    v.push('h');
    v.push('e');
    v.push('c');
    v.push('k');
    v.push('"');
    v.push(':');
    proof {
        assert(v@ =~= tok_mid());
    }
    v
}

fn tok_name_vec() -> (v: Vec<char>)
    ensures
        v@ == tok_name(),
{
    let mut v: Vec<char> = Vec::new();
    v.push('{');
    v.push('"');
    v.push('n');
    v.push('a');
    v.push('m');
    v.push('e');
    v.push('"');
    v.push(':');
    proof {
        assert(v@ =~= tok_name());
    }
    v
}

fn tok_version_vec() -> (v: Vec<char>)
    ensures
        v@ == tok_version(),
{
    let mut v: Vec<char> = Vec::new();
    v.push(',');
    v.push('"');
    v.push('v');
    v.push('e');
    v.push('r');
    v.push('s');
    v.push('i');
    v.push('o');
    v.push('n');
    v.push('"');
    v.push(':');
    proof {
        assert(v@ =~= tok_version());
    }
    v
}

fn tok_checksum_vec() -> (v: Vec<char>)
    ensures
        v@ == tok_checksum(),
{
    let mut v: Vec<char> = Vec::new();
    v.push(',');
    v.push('"');
    v.push('c');
    v.push('h');
    v.push('e');
    v.push('c');
    v.push('k');
    v.push('s');
    v.push('u');
    v.push('m');
    v.push('"');
    v.push(':');
    proof {
        assert(v@ =~= tok_checksum());
    }
    v
}

fn tok_path_vec() -> (v: Vec<char>)
    ensures
        v@ == tok_path(),
{
    let mut v: Vec<char> = Vec::new();
    v.push(',');
    v.push('"');
    v.push('i');
    v.push('n');
    v.push('s');
    v.push('t');
    v.push('a');
    v.push('l');
    v.push('l');
    v.push('e');
    v.push('d');
    v.push('P');
    v.push('a');
    v.push('t');
    v.push('h');
    v.push('"');
    v.push(':');
    proof {
        assert(v@ =~= tok_path());
    }
    v
}

fn tok_updated_vec() -> (v: Vec<char>)
    ensures
        v@ == tok_updated(),
{
    let mut v: Vec<char> = Vec::new();
    v.push(',');
    v.push('"');
    v.push('l');
    v.push('a');
    v.push('s');
    v.push('t');
    v.push('U');
    v.push('p');
    v.push('d');
    v.push('a');
    v.push('t');
    v.push('e');
    v.push('d');
    v.push('"');
    v.push(':');
    proof {
        assert(v@ =~= tok_updated());
    }
    v
}

fn tok_null_vec() -> (v: Vec<char>)
    ensures
        v@ == tok_null(),
{
    let mut v: Vec<char> = Vec::new();
    v.push('n');
    v.push('u');
    v.push('l');
    v.push('l');
    proof {
        assert(v@ =~= tok_null());
    }
    v
}

#[verifier::loop_isolation(false)]
fn push_rendered_record(out: &mut Vec<char>, rec: &LocalModVersion)
    ensures
        final(out)@ == old(out)@ + render_record(rec@),
{
    let t1 = tok_name_vec();
    push_tok(out, &t1);
    push_rendered_string(out, &rec.name);
    let t2 = tok_version_vec();
    push_tok(out, &t2);
    push_rendered_string(out, &rec.version);
    let t3 = tok_checksum_vec();
    push_tok(out, &t3);
    match &rec.checksum {
        Some(c) => {
            push_rendered_string(out, c);
        },
        None => {
            let t = tok_null_vec();
            push_tok(out, &t);
        },
    }
    let t4 = tok_path_vec();
    push_tok(out, &t4);
    push_rendered_string(out, &rec.installed_path);
    let t5 = tok_updated_vec();
    push_tok(out, &t5);
    push_rendered_string(out, &rec.last_updated);
    out.push('}');
    proof {
        assert(out@ =~= old(out)@ + render_record(rec@));
    }
}

#[verifier::loop_isolation(false)]
fn push_rendered_entry(out: &mut Vec<char>, rec: &LocalModVersion)
    ensures
        final(out)@ == old(out)@ + render_entry(rec@),
{
    push_rendered_string(out, &rec.name);
    out.push(':');
    push_rendered_record(out, rec);
    proof {
        assert(out@ =~= old(out)@ + render_entry(rec@));
    }
}

/// Serialize a registry in the canonical form.
#[verifier::loop_isolation(false)]
pub fn registry_to_json(reg: &LocalModRegistry) -> (s: String)
    ensures
        s@ == render_registry(reg@),
{
    let mut out: Vec<char> = Vec::new();
    let th = tok_header_vec();
    push_tok(&mut out, &th);
    let n = reg.mods.len();
    let ghost base = out@;
    for i in 0..n
        invariant
            n == reg.mods@.len(),
            out@ == base + render_records(reg@.mods.subrange(0, i as int)),
    {
        let ghost pre = reg@.mods.subrange(0, i as int);
        if i > 0 {
            out.push(',');
        }
        push_rendered_entry(&mut out, &reg.mods[i]);
        proof {
            lemma_render_records_snoc(pre, reg@.mods[i as int]);
            assert(pre.push(reg@.mods[i as int]) =~= reg@.mods.subrange(0, i + 1 as int));
            if i > 0 {
                assert(out@ =~= base + (render_records(pre) + seq![','] + render_entry(
                    reg@.mods[i as int],
                )));
            } else {
                assert(pre.len() == 0);
                assert(render_records(pre) =~= Seq::<char>::empty());
                assert(out@ =~= base + render_entry(reg@.mods[i as int]));
            }
        }
    }
    proof {
        assert(reg@.mods.subrange(0, n as int) =~= reg@.mods);
    }
    let tm = tok_mid_vec();
    push_tok(&mut out, &tm);
    push_rendered_string(&mut out, &reg.last_check);
    out.push('}');
    proof {
        assert(out@ =~= render_registry(reg@));
    }
    chars_to_string(&out)
}

// ---------------------------------------------------------------------
// Parsing, as a mathematical function.  Positions index into the input;
// every parser returns the parsed value and the position after it, or
// nothing where the input does not fit the grammar.
// ---------------------------------------------------------------------
pub open spec fn parse_lit(s: Seq<char>, i: int, tok: Seq<char>) -> Option<int> {
    if 0 <= i && i + tok.len() <= s.len() && s.subrange(i, i + tok.len() as int) == tok {
        Some(i + tok.len() as int)
    } else {
        None
    }
}

/// The characters of a string value up to its closing quote, with
/// escapes undone.
pub open spec fn parse_str_body(s: Seq<char>, i: int) -> Option<(Seq<char>, int)>
    decreases s.len() - i,
{
    if i < 0 || i >= s.len() {
        None
    } else if s[i] == '"' {
        Some((Seq::empty(), i + 1))
    } else if s[i] == '\\' {
        if i + 1 < s.len() && (s[i + 1] == '"' || s[i + 1] == '\\') {
            match parse_str_body(s, i + 2) {
                Some((t, j)) => Some((seq![s[i + 1]] + t, j)),
                None => None,
            }
        } else {
            None
        }
    } else {
        match parse_str_body(s, i + 1) {
            Some((t, j)) => Some((seq![s[i]] + t, j)),
            None => None,
        }
    }
}

pub open spec fn parse_string(s: Seq<char>, i: int) -> Option<(Seq<char>, int)> {
    if 0 <= i < s.len() && s[i] == '"' {
        parse_str_body(s, i + 1)
    } else {
        None
    }
}

pub open spec fn parse_opt(s: Seq<char>, i: int) -> Option<(Option<Seq<char>>, int)> {
    if 0 <= i < s.len() && s[i] == 'n' {
        match parse_lit(s, i, tok_null()) {
            Some(j) => Some((None, j)),
            None => None,
        }
    } else {
        match parse_string(s, i) {
            Some((t, j)) => Some((Some(t), j)),
            None => None,
        }
    }
}

pub open spec fn parse_record(s: Seq<char>, i: int) -> Option<(RecordV, int)> {
    match parse_lit(s, i, tok_name()) {
        None => None,
        Some(j1) => match parse_string(s, j1) {
            None => None,
            Some((name, j2)) => match parse_lit(s, j2, tok_version()) {
                None => None,
                Some(j3) => match parse_string(s, j3) {
                    None => None,
                    Some((version, j4)) => match parse_lit(s, j4, tok_checksum()) {
                        None => None,
                        Some(j5) => match parse_opt(s, j5) {
                            None => None,
                            Some((checksum, j6)) => match parse_lit(s, j6, tok_path()) {
                                None => None,
                                Some(j7) => match parse_string(s, j7) {
                                    None => None,
                                    Some((path, j8)) => match parse_lit(s, j8, tok_updated()) {
                                        None => None,
                                        Some(j9) => match parse_string(s, j9) {
                                            None => None,
                                            Some((upd, j10)) => match parse_lit(
                                                s,
                                                j10,
                                                seq!['}'],
                                            ) {
                                                None => None,
                                                Some(j11) => Some(
                                                    (
                                                        RecordV {
                                                            name,
                                                            version,
                                                            checksum,
                                                            installed_path: path,
                                                            last_updated: upd,
                                                        },
                                                        j11,
                                                    ),
                                                ),
                                            },
                                        },
                                    },
                                },
                            },
                        },
                    },
                },
            },
        },
    }
}

/// One entry of the "mods" object; its key must repeat the record's
/// own name field.
pub open spec fn parse_entry(s: Seq<char>, i: int) -> Option<(RecordV, int)> {
    match parse_string(s, i) {
        None => None,
        Some((key, j)) => match parse_lit(s, j, seq![':']) {
            None => None,
            Some(j2) => match parse_record(s, j2) {
                None => None,
                Some((r, j3)) => if r.name == key {
                    Some((r, j3))
                } else {
                    None
                },
            },
        },
    }
}

pub open spec fn parse_more(s: Seq<char>, i: int) -> Option<(Seq<RecordV>, int)>
    decreases s.len() - i,
{
    if 0 <= i < s.len() && s[i] == ',' {
        match parse_entry(s, i + 1) {
            None => None,
            Some((r, j)) => if j <= i + 1 || j > s.len() {
                None
            } else {
                match parse_more(s, j) {
                    None => None,
                    Some((rs, k)) => Some((seq![r] + rs, k)),
                }
            },
        }
    } else {
        Some((Seq::empty(), i))
    }
}

pub open spec fn parse_records(s: Seq<char>, i: int) -> Option<(Seq<RecordV>, int)> {
    if 0 <= i < s.len() && s[i] == '}' {
        Some((Seq::empty(), i))
    } else {
        match parse_entry(s, i) {
            None => None,
            Some((r, j)) => if j <= i || j > s.len() {
                None
            } else {
                match parse_more(s, j) {
                    None => None,
                    Some((rs, k)) => Some((seq![r] + rs, k)),
                }
            },
        }
    }
}

/// The whole persisted document; the input must be consumed exactly and
/// the record names must be unique.
pub open spec fn parse_registry(s: Seq<char>) -> Option<RegistryV> {
    match parse_lit(s, 0, tok_header()) {
        None => None,
        Some(i) => match parse_records(s, i) {
            None => None,
            Some((ms, j)) => match parse_lit(s, j, tok_mid()) {
                None => None,
                Some(k) => match parse_string(s, k) {
                    None => None,
                    Some((lc, l)) => match parse_lit(s, l, seq!['}']) {
                        None => None,
                        Some(m) => if m == s.len() && unique_names(ms) {
                            Some(RegistryV { mods: ms, last_check: lc })
                        } else {
                            None
                        },
                    },
                },
            },
        },
    }
}

// ---------------------------------------------------------------------
// The round trip: parsing a rendered registry gives the registry back.
// ---------------------------------------------------------------------
/// Indexing into a suffix of the input.
proof fn lemma_suffix_index(s: Seq<char>, i: int, k: int)
    requires
        0 <= i,
        0 <= k,
        i + k < s.len(),
    ensures
        s.subrange(i, s.len() as int)[k] == s[i + k],
{
}

/// Splitting a suffix: if the input from position `i` on reads `a + b`,
/// then from position `i + a.len()` on it reads `b`.
proof fn lemma_suffix_split(s: Seq<char>, i: int, a: Seq<char>, b: Seq<char>)
    requires
        0 <= i <= s.len(),
        s.subrange(i, s.len() as int) == a + b,
    ensures
        i + a.len() <= s.len(),
        s.subrange(i + a.len(), s.len() as int) == b,
{
    assert((a + b).len() == s.len() - i);
    assert forall|k: int| 0 <= k < b.len() implies s.subrange(i + a.len(), s.len() as int)[k]
        == b[k] by {
        assert(s.subrange(i + a.len(), s.len() as int)[k] == s[i + a.len() + k]);
        assert(s.subrange(i, s.len() as int)[a.len() + k] == s[i + a.len() + k]);
        assert((a + b)[a.len() + k] == b[k]);
    }
    assert(s.subrange(i + a.len(), s.len() as int) =~= b);
}

proof fn lemma_parse_lit_round(s: Seq<char>, i: int, tok: Seq<char>, rest: Seq<char>)
    requires
        0 <= i <= s.len(),
        s.subrange(i, s.len() as int) == tok + rest,
    ensures
        parse_lit(s, i, tok) == Some(i + tok.len() as int),
        i + tok.len() <= s.len(),
        s.subrange(i + tok.len(), s.len() as int) == rest,
{
    lemma_suffix_split(s, i, tok, rest);
    assert forall|k: int| 0 <= k < tok.len() implies s.subrange(i, i + tok.len() as int)[k]
        == tok[k] by {
        assert(s.subrange(i, s.len() as int)[k] == (tok + rest)[k]);
    }
    assert(s.subrange(i, i + tok.len() as int) =~= tok);
}

proof fn lemma_parse_str_body_round(s: Seq<char>, i: int, x: Seq<char>, rest: Seq<char>)
    requires
        0 <= i <= s.len(),
        s.subrange(i, s.len() as int) == escape(x) + seq!['"'] + rest,
    ensures
        parse_str_body(s, i) == Some((x, i + escape(x).len() + 1)),
    decreases x.len(),
{
    let suf = s.subrange(i, s.len() as int);
    assert(suf.len() == s.len() - i);
    if x.len() == 0 {
        assert(escape(x) == Seq::<char>::empty());
        assert(suf[0] == '"');
        lemma_suffix_index(s, i, 0);
        assert(s[i] == '"');
        assert(x =~= Seq::<char>::empty());
        assert(parse_str_body(s, i) == Some((Seq::<char>::empty(), i + 1)));
    } else {
        let c = x[0];
        let x1 = x.drop_first();
        assert(escape(x) == escape_char(c) + escape(x1));
        if c == '"' || c == '\\' {
            assert(suf[0] == '\\');
            assert(suf[1] == c);
            lemma_suffix_index(s, i, 0);
            lemma_suffix_index(s, i, 1);
            assert(s[i] == '\\');
            assert(s[i + 1] == c);
            assert(suf.len() >= 3);
            assert(escape(x) + seq!['"'] + rest =~= seq!['\\', c] + (escape(x1) + seq!['"']
                + rest));
            lemma_suffix_split(s, i, seq!['\\', c], escape(x1) + seq!['"'] + rest);
            lemma_parse_str_body_round(s, i + 2, x1, rest);
            assert(seq![c] + x1 =~= x);
            assert(escape(x).len() == 2 + escape(x1).len());
        } else {
            assert(suf[0] == c);
            lemma_suffix_index(s, i, 0);
            assert(s[i] == c);
            assert(escape(x) + seq!['"'] + rest =~= seq![c] + (escape(x1) + seq!['"'] + rest));
            lemma_suffix_split(s, i, seq![c], escape(x1) + seq!['"'] + rest);
            lemma_parse_str_body_round(s, i + 1, x1, rest);
            assert(seq![c] + x1 =~= x);
            assert(escape(x).len() == 1 + escape(x1).len());
        }
    }
}

proof fn lemma_parse_string_round(s: Seq<char>, i: int, x: Seq<char>, rest: Seq<char>)
    requires
        0 <= i <= s.len(),
        s.subrange(i, s.len() as int) == render_string(x) + rest,
    ensures
        parse_string(s, i) == Some((x, i + render_string(x).len() as int)),
        i + render_string(x).len() <= s.len(),
        s.subrange(i + render_string(x).len(), s.len() as int) == rest,
{
    let suf = s.subrange(i, s.len() as int);
    assert(suf.len() == s.len() - i);
    assert(render_string(x)[0] == '"');
    assert(suf[0] == '"');
    lemma_suffix_index(s, i, 0);
    assert(s[i] == '"');
    assert(render_string(x) + rest =~= seq!['"'] + (escape(x) + seq!['"'] + rest));
    lemma_suffix_split(s, i, seq!['"'], escape(x) + seq!['"'] + rest);
    lemma_parse_str_body_round(s, i + 1, x, rest);
    assert(render_string(x).len() == escape(x).len() + 2);
    lemma_suffix_split(s, i, render_string(x), rest);
}

proof fn lemma_parse_opt_round(s: Seq<char>, i: int, o: Option<Seq<char>>, rest: Seq<char>)
    requires
        0 <= i <= s.len(),
        s.subrange(i, s.len() as int) == render_opt(o) + rest,
    ensures
        parse_opt(s, i) == Some((o, i + render_opt(o).len() as int)),
        i + render_opt(o).len() <= s.len(),
        s.subrange(i + render_opt(o).len(), s.len() as int) == rest,
{
    let suf = s.subrange(i, s.len() as int);
    assert(suf.len() == s.len() - i);
    match o {
        None => {
            assert(render_opt(o) == tok_null());
            assert(suf[0] == 'n');
            lemma_suffix_index(s, i, 0);
            assert(s[i] == 'n');
            lemma_parse_lit_round(s, i, tok_null(), rest);
        },
        Some(x) => {
            assert(render_opt(o) == render_string(x));
            assert(render_string(x)[0] == '"');
            assert(suf[0] == '"');
            lemma_suffix_index(s, i, 0);
            assert(s[i] == '"');
            lemma_parse_string_round(s, i, x, rest);
        },
    }
}

#[verifier::rlimit(100)]
proof fn lemma_parse_record_round(s: Seq<char>, i: int, r: RecordV, rest: Seq<char>)
    requires
        0 <= i <= s.len(),
        s.subrange(i, s.len() as int) == render_record(r) + rest,
    ensures
        parse_record(s, i) == Some((r, i + render_record(r).len() as int)),
        i + render_record(r).len() <= s.len(),
        s.subrange(i + render_record(r).len(), s.len() as int) == rest,
{
    let r1 = render_string(r.name) + tok_version() + render_string(r.version) + tok_checksum()
        + render_opt(r.checksum) + tok_path() + render_string(r.installed_path) + tok_updated()
        + render_string(r.last_updated) + seq!['}'] + rest;
    assert(render_record(r) + rest =~= tok_name() + r1);
    lemma_parse_lit_round(s, i, tok_name(), r1);
    let i1 = i + tok_name().len() as int;

    let r2 = tok_version() + render_string(r.version) + tok_checksum() + render_opt(r.checksum)
        + tok_path() + render_string(r.installed_path) + tok_updated() + render_string(
        r.last_updated,
    ) + seq!['}'] + rest;
    assert(r1 =~= render_string(r.name) + r2);
    lemma_parse_string_round(s, i1, r.name, r2);
    let i2 = i1 + render_string(r.name).len() as int;

    let r3 = render_string(r.version) + tok_checksum() + render_opt(r.checksum) + tok_path()
        + render_string(r.installed_path) + tok_updated() + render_string(r.last_updated)
        + seq!['}'] + rest;
    assert(r2 =~= tok_version() + r3);
    lemma_parse_lit_round(s, i2, tok_version(), r3);
    let i3 = i2 + tok_version().len() as int;

    let r4 = tok_checksum() + render_opt(r.checksum) + tok_path() + render_string(
        r.installed_path,
    ) + tok_updated() + render_string(r.last_updated) + seq!['}'] + rest;
    assert(r3 =~= render_string(r.version) + r4);
    lemma_parse_string_round(s, i3, r.version, r4);
    let i4 = i3 + render_string(r.version).len() as int;

    let r5 = render_opt(r.checksum) + tok_path() + render_string(r.installed_path) + tok_updated()
        + render_string(r.last_updated) + seq!['}'] + rest;
    assert(r4 =~= tok_checksum() + r5);
    lemma_parse_lit_round(s, i4, tok_checksum(), r5);
    let i5 = i4 + tok_checksum().len() as int;

    let r6 = tok_path() + render_string(r.installed_path) + tok_updated() + render_string(
        r.last_updated,
    ) + seq!['}'] + rest;
    assert(r5 =~= render_opt(r.checksum) + r6);
    lemma_parse_opt_round(s, i5, r.checksum, r6);
    let i6 = i5 + render_opt(r.checksum).len() as int;

    let r7 = render_string(r.installed_path) + tok_updated() + render_string(r.last_updated)
        + seq!['}'] + rest;
    assert(r6 =~= tok_path() + r7);
    lemma_parse_lit_round(s, i6, tok_path(), r7);
    let i7 = i6 + tok_path().len() as int;

    let r8 = tok_updated() + render_string(r.last_updated) + seq!['}'] + rest;
    assert(r7 =~= render_string(r.installed_path) + r8);
    lemma_parse_string_round(s, i7, r.installed_path, r8);
    let i8 = i7 + render_string(r.installed_path).len() as int;

    let r9 = render_string(r.last_updated) + seq!['}'] + rest;
    assert(r8 =~= tok_updated() + r9);
    lemma_parse_lit_round(s, i8, tok_updated(), r9);
    let i9 = i8 + tok_updated().len() as int;

    let r10 = seq!['}'] + rest;
    assert(r9 =~= render_string(r.last_updated) + r10);
    lemma_parse_string_round(s, i9, r.last_updated, r10);
    let i10 = i9 + render_string(r.last_updated).len() as int;

    assert(r10 =~= seq!['}'] + rest);
    lemma_parse_lit_round(s, i10, seq!['}'], rest);
    let i11 = i10 + 1;

    assert(render_record(r).len() == i11 - i);
    lemma_suffix_split(s, i, render_record(r), rest);
}

proof fn lemma_parse_entry_round(s: Seq<char>, i: int, r: RecordV, rest: Seq<char>)
    requires
        0 <= i <= s.len(),
        s.subrange(i, s.len() as int) == render_entry(r) + rest,
    ensures
        parse_entry(s, i) == Some((r, i + render_entry(r).len() as int)),
        i + render_entry(r).len() <= s.len(),
        s.subrange(i + render_entry(r).len(), s.len() as int) == rest,
        render_entry(r).len() > 0,
{
    let r1 = seq![':'] + render_record(r) + rest;
    assert(render_entry(r) + rest =~= render_string(r.name) + r1);
    lemma_parse_string_round(s, i, r.name, r1);
    let i1 = i + render_string(r.name).len() as int;

    let r2 = render_record(r) + rest;
    assert(r1 =~= seq![':'] + r2);
    lemma_parse_lit_round(s, i1, seq![':'], r2);
    let i2 = i1 + 1;

    lemma_parse_record_round(s, i2, r, rest);

    assert(render_entry(r).len() == render_string(r.name).len() + 1 + render_record(r).len());
    lemma_suffix_split(s, i, render_entry(r), rest);
}

#[verifier::rlimit(100)]
proof fn lemma_parse_more_round(s: Seq<char>, i: int, ms: Seq<RecordV>, rest: Seq<char>)
    requires
        0 <= i <= s.len(),
        s.subrange(i, s.len() as int) == render_more(ms) + rest,
        rest.len() > 0,
        rest[0] == '}',
    ensures
        parse_more(s, i) == Some((ms, i + render_more(ms).len() as int)),
        i + render_more(ms).len() <= s.len(),
        s.subrange(i + render_more(ms).len(), s.len() as int) == rest,
    decreases ms.len(),
{
    let suf = s.subrange(i, s.len() as int);
    assert(suf.len() == s.len() - i);
    if ms.len() == 0 {
        assert(render_more(ms) == Seq::<char>::empty());
        assert(suf =~= rest);
        assert(suf[0] == '}');
        lemma_suffix_index(s, i, 0);
        assert(s[i] == '}');
        assert(i < s.len());
        assert(ms =~= Seq::<RecordV>::empty());
        assert(s.subrange(i + 0, s.len() as int) == rest);
    } else {
        let r = ms[0];
        let ms1 = ms.drop_first();
        assert(render_more(ms) == seq![','] + render_entry(r) + render_more(ms1));
        assert(suf[0] == ',');
        lemma_suffix_index(s, i, 0);
        assert(s[i] == ',');
        let r1 = render_entry(r) + (render_more(ms1) + rest);
        assert(render_more(ms) + rest =~= seq![','] + r1);
        lemma_parse_lit_round(s, i, seq![','], r1);
        let i1 = i + 1;

        lemma_parse_entry_round(s, i1, r, render_more(ms1) + rest);
        let i2 = i1 + render_entry(r).len() as int;

        lemma_parse_more_round(s, i2, ms1, rest);

        assert(seq![r] + ms1 =~= ms);
        assert(render_more(ms).len() == 1 + render_entry(r).len() + render_more(ms1).len());
        lemma_suffix_split(s, i, render_more(ms), rest);
    }
}

proof fn lemma_parse_records_round(s: Seq<char>, i: int, ms: Seq<RecordV>, rest: Seq<char>)
    requires
        0 <= i <= s.len(),
        s.subrange(i, s.len() as int) == render_records(ms) + rest,
        rest.len() > 0,
        rest[0] == '}',
    ensures
        parse_records(s, i) == Some((ms, i + render_records(ms).len() as int)),
        i + render_records(ms).len() <= s.len(),
        s.subrange(i + render_records(ms).len(), s.len() as int) == rest,
{
    let suf = s.subrange(i, s.len() as int);
    assert(suf.len() == s.len() - i);
    if ms.len() == 0 {
        assert(render_records(ms) == Seq::<char>::empty());
        assert(suf =~= rest);
        assert(suf[0] == '}');
        lemma_suffix_index(s, i, 0);
        assert(s[i] == '}');
        assert(i < s.len());
        assert(ms =~= Seq::<RecordV>::empty());
        assert(s.subrange(i + 0, s.len() as int) == rest);
    } else {
        let r = ms[0];
        let ms1 = ms.drop_first();
        assert(render_records(ms) == render_entry(r) + render_more(ms1));
        assert(render_entry(r)[0] == '"');
        assert(suf[0] == '"');
        lemma_suffix_index(s, i, 0);
        assert(s[i] == '"');

        assert(render_records(ms) + rest =~= render_entry(r) + (render_more(ms1) + rest));
        lemma_parse_entry_round(s, i, r, render_more(ms1) + rest);
        let i1 = i + render_entry(r).len() as int;

        lemma_parse_more_round(s, i1, ms1, rest);

        assert(seq![r] + ms1 =~= ms);
        assert(render_records(ms).len() == render_entry(r).len() + render_more(ms1).len());
        lemma_suffix_split(s, i, render_records(ms), rest);
    }
}

/// The round-trip law: rendering any registry whose record names are
/// unique, then parsing the result, reproduces the registry exactly —
/// records, timestamps and all.
#[verifier::rlimit(100)]
#[verifier::spinoff_prover]
pub proof fn lemma_registry_round_trip(v: RegistryV)
    requires
        unique_names(v.mods),
    ensures
        parse_registry(render_registry(v)) == Some(v),
{
    let s = render_registry(v);
    assert(s.subrange(0, s.len() as int) =~= s);

    let r1 = render_records(v.mods) + (tok_mid() + render_string(v.last_check) + seq!['}']);
    assert(s =~= tok_header() + r1);
    lemma_parse_lit_round(s, 0, tok_header(), r1);
    let i1 = tok_header().len() as int;

    let r2 = tok_mid() + render_string(v.last_check) + seq!['}'];
    assert(r1 =~= render_records(v.mods) + r2);
    assert(r2[0] == '}');
    lemma_parse_records_round(s, i1, v.mods, r2);
    let i2 = i1 + render_records(v.mods).len() as int;

    let r3 = render_string(v.last_check) + seq!['}'];
    assert(r2 =~= tok_mid() + r3);
    lemma_parse_lit_round(s, i2, tok_mid(), r3);
    let i3 = i2 + tok_mid().len() as int;

    let r4 = seq!['}'];
    assert(r3 =~= render_string(v.last_check) + (r4 + Seq::<char>::empty()));
    assert(r3 =~= render_string(v.last_check) + r4);
    lemma_parse_string_round(s, i3, v.last_check, r4);
    let i4 = i3 + render_string(v.last_check).len() as int;

    assert(r4 =~= seq!['}'] + Seq::<char>::empty());
    lemma_parse_lit_round(s, i4, seq!['}'], Seq::<char>::empty());
    let i5 = i4 + 1;

    assert(i5 == s.len());
}


// ---------------------------------------------------------------------
// Parsing, executable.  Each function returns exactly what the
// mathematical parser says at the same position.
// ---------------------------------------------------------------------
fn eat(s: &Vec<char>, i: usize, tok: &Vec<char>) -> (r: Option<usize>)
    ensures
        match r {
            Some(j) => parse_lit(s@, i as int, tok@) == Some(j as int) && j <= s@.len(),
            None => parse_lit(s@, i as int, tok@) is None,
        },
{
    let n = tok.len();
    if i > s.len() || n > s.len() - i {
        return None;
    }
    for k in 0..n
        invariant
            n == tok@.len(),
            i + n <= s@.len(),
            s@.len() <= usize::MAX,
            forall|q: int| 0 <= q < k ==> s@[i + q] == tok@[q],
    {
        if s[i + k] != tok[k] {
            proof {
                assert(s@.subrange(i as int, i + tok@.len())[k as int] != tok@[k as int]);
            }
            return None;
        }
    }
    proof {
        assert(s@.subrange(i as int, i + tok@.len()) =~= tok@);
    }
    Some(i + n)
}

fn eat_char(s: &Vec<char>, i: usize, c: char) -> (r: Option<usize>)
    ensures
        match r {
            Some(j) => parse_lit(s@, i as int, seq![c]) == Some(j as int) && j <= s@.len(),
            None => parse_lit(s@, i as int, seq![c]) is None,
        },
{
    if i < s.len() && s[i] == c {
        proof {
            assert(s@.subrange(i as int, i + 1 as int) =~= seq![c]);
        }
        Some(i + 1)
    } else {
        proof {
            if i < s@.len() {
                assert(s@.subrange(i as int, i + 1 as int)[0] == s@[i as int]);
            }
        }
        None
    }
}

#[verifier::loop_isolation(false)]
fn scan_string_body(s: &Vec<char>, start: usize) -> (r: Option<(Vec<char>, usize)>)
    ensures
        match r {
            Some(p) => parse_str_body(s@, start as int) == Some((p.0@, p.1 as int)) && p.1
                <= s@.len(),
            None => parse_str_body(s@, start as int) is None,
        },
{
    let mut acc: Vec<char> = Vec::new();
    let mut i = start;
    loop
        invariant
            start <= i,
            parse_str_body(s@, start as int) == (match parse_str_body(s@, i as int) {
                Some((t, j)) => Some((acc@ + t, j)),
                None => None::<(Seq<char>, int)>,
            }),
        decreases s@.len() - i,
    {
        if i >= s.len() {
            return None;
        }
        let c = s[i];
        if c == '"' {
            proof {
                assert(acc@ + Seq::<char>::empty() =~= acc@);
            }
            return Some((acc, i + 1));
        } else if c == '\\' {
            if i + 1 < s.len() && (s[i + 1] == '"' || s[i + 1] == '\\') {
                let c2 = s[i + 1];
                let ghost acc0 = acc@;
                acc.push(c2);
                proof {
                    match parse_str_body(s@, i + 2) {
                        Some((t, j)) => {
                            assert(acc0 + (seq![c2] + t) =~= acc@ + t);
                        },
                        None => {},
                    }
                }
                i = i + 2;
            } else {
                return None;
            }
        } else {
            let ghost acc0 = acc@;
            acc.push(c);
            proof {
                match parse_str_body(s@, i + 1) {
                    Some((t, j)) => {
                        assert(acc0 + (seq![c] + t) =~= acc@ + t);
                    },
                    None => {},
                }
            }
            i = i + 1;
        }
    }
}

fn scan_string(s: &Vec<char>, i: usize) -> (r: Option<(Vec<char>, usize)>)
    ensures
        match r {
            Some(p) => parse_string(s@, i as int) == Some((p.0@, p.1 as int)) && p.1 <= s@.len(),
            None => parse_string(s@, i as int) is None,
        },
{
    if i < s.len() && s[i] == '"' {
        scan_string_body(s, i + 1)
    } else {
        None
    }
}

fn scan_opt(s: &Vec<char>, i: usize) -> (r: Option<(Option<Vec<char>>, usize)>)
    ensures
        match r {
            Some(p) => (match p.0 {
                Some(cs) => parse_opt(s@, i as int) == Some((Some(cs@), p.1 as int)),
                None => parse_opt(s@, i as int) == Some((None::<Seq<char>>, p.1 as int)),
            }) && p.1 <= s@.len(),
            None => parse_opt(s@, i as int) is None,
        },
{
    if i < s.len() && s[i] == 'n' {
        let tn = tok_null_vec();
        match eat(s, i, &tn) {
            Some(j) => Some((None, j)),
            None => None,
        }
    } else {
        match scan_string(s, i) {
            Some((cs, j)) => Some((Some(cs), j)),
            None => None,
        }
    }
}

#[verifier::rlimit(100)]
fn scan_record(s: &Vec<char>, i: usize) -> (r: Option<(LocalModVersion, usize)>)
    ensures
        match r {
            Some(p) => parse_record(s@, i as int) == Some((p.0@, p.1 as int)) && p.1 <= s@.len(),
            None => parse_record(s@, i as int) is None,
        },
{
    let t1 = tok_name_vec();
    let j1 = match eat(s, i, &t1) {
        Some(j) => j,
        None => {
            return None;
        },
    };
    let (name_cs, j2) = match scan_string(s, j1) {
        Some(p) => p,
        None => {
            return None;
        },
    };
    let t2 = tok_version_vec();
    let j3 = match eat(s, j2, &t2) {
        Some(j) => j,
        None => {
            return None;
        },
    };
    let (version_cs, j4) = match scan_string(s, j3) {
        Some(p) => p,
        None => {
            return None;
        },
    };
    let t3 = tok_checksum_vec();
    let j5 = match eat(s, j4, &t3) {
        Some(j) => j,
        None => {
            return None;
        },
    };
    let (checksum_cs, j6) = match scan_opt(s, j5) {
        Some(p) => p,
        None => {
            return None;
        },
    };
    let t4 = tok_path_vec();
    let j7 = match eat(s, j6, &t4) {
        Some(j) => j,
        None => {
            return None;
        },
    };
    let (path_cs, j8) = match scan_string(s, j7) {
        Some(p) => p,
        None => {
            return None;
        },
    };
    let t5 = tok_updated_vec();
    let j9 = match eat(s, j8, &t5) {
        Some(j) => j,
        None => {
            return None;
        },
    };
    let (upd_cs, j10) = match scan_string(s, j9) {
        Some(p) => p,
        None => {
            return None;
        },
    };
    let j11 = match eat_char(s, j10, '}') {
        Some(j) => j,
        None => {
            return None;
        },
    };
    let rec = LocalModVersion {
        name: chars_to_string(&name_cs),
        version: chars_to_string(&version_cs),
        checksum: match &checksum_cs {
            Some(cs) => Some(chars_to_string(cs)),
            None => None,
        },
        installed_path: chars_to_string(&path_cs),
        last_updated: chars_to_string(&upd_cs),
    };
    Some((rec, j11))
}

fn scan_entry(s: &Vec<char>, i: usize) -> (r: Option<(LocalModVersion, usize)>)
    ensures
        match r {
            Some(p) => parse_entry(s@, i as int) == Some((p.0@, p.1 as int)) && p.1 <= s@.len(),
            None => parse_entry(s@, i as int) is None,
        },
{
    let (key_cs, j) = match scan_string(s, i) {
        Some(p) => p,
        None => {
            return None;
        },
    };
    let j2 = match eat_char(s, j, ':') {
        Some(k) => k,
        None => {
            return None;
        },
    };
    let (rec, j3) = match scan_record(s, j2) {
        Some(p) => p,
        None => {
            return None;
        },
    };
    let key = chars_to_string(&key_cs);
    if rec.name.eq(&key) {
        Some((rec, j3))
    } else {
        None
    }
}

#[verifier::loop_isolation(false)]
fn scan_records(s: &Vec<char>, i: usize) -> (r: Option<(Vec<LocalModVersion>, usize)>)
    ensures
        match r {
            Some(p) => parse_records(s@, i as int) == Some(
                (p.0@.map_values(|m: LocalModVersion| m@), p.1 as int),
            ) && p.1 <= s@.len(),
            None => parse_records(s@, i as int) is None,
        },
{
    if i < s.len() && s[i] == '}' {
        let empty: Vec<LocalModVersion> = Vec::new();
        proof {
            assert(empty@.map_values(|m: LocalModVersion| m@) =~= Seq::<RecordV>::empty());
        }
        return Some((empty, i));
    }
    let (first, j) = match scan_entry(s, i) {
        Some(p) => p,
        None => {
            return None;
        },
    };
    if j <= i {
        return None;
    }
    let mut acc: Vec<LocalModVersion> = Vec::new();
    acc.push(first);
    let mut cur = j;
    proof {
        assert(acc@.map_values(|m: LocalModVersion| m@) =~= seq![first@]);
    }
    loop
        invariant
            i < cur <= s@.len(),
            parse_records(s@, i as int) == (match parse_more(s@, cur as int) {
                Some((rs, k)) => Some((acc@.map_values(|m: LocalModVersion| m@) + rs, k)),
                None => None::<(Seq<RecordV>, int)>,
            }),
        decreases s@.len() - cur,
    {
        if cur >= s.len() || s[cur] != ',' {
            proof {
                assert(parse_more(s@, cur as int) == Some((Seq::<RecordV>::empty(), cur as int)));
                assert(acc@.map_values(|m: LocalModVersion| m@) + Seq::<RecordV>::empty()
                    =~= acc@.map_values(|m: LocalModVersion| m@));
            }
            return Some((acc, cur));
        }
        let (rec, j2) = match scan_entry(s, cur + 1) {
            Some(p) => p,
            None => {
                return None;
            },
        };
        if j2 <= cur + 1 {
            return None;
        }
        let ghost acc0 = acc@.map_values(|m: LocalModVersion| m@);
        let ghost recv = rec@;
        acc.push(rec);
        proof {
            assert(acc@.map_values(|m: LocalModVersion| m@) =~= acc0.push(recv));
            match parse_more(s@, j2 as int) {
                Some((rs, k)) => {
                    assert(acc0 + (seq![recv] + rs) =~= acc0.push(recv) + rs);
                },
                None => {},
            }
        }
        cur = j2;
    }
}

fn names_unique(recs: &Vec<LocalModVersion>) -> (r: bool)
    ensures
        r == unique_names(recs@.map_values(|m: LocalModVersion| m@)),
{
    let ghost ms = recs@.map_values(|m: LocalModVersion| m@);
    let n = recs.len();
    let mut i: usize = 0;
    while i < n
        invariant
            i <= n,
            n == recs@.len(),
            ms == recs@.map_values(|m: LocalModVersion| m@),
            forall|a: int, b: int| 0 <= a < b < n && a < i ==> ms[a].name != ms[b].name,
        decreases n - i,
    {
        let mut j: usize = i + 1;
        while j < n
            invariant
                i < j <= n || (i + 1 == j && j > n),
                i < n,
                n == recs@.len(),
                ms == recs@.map_values(|m: LocalModVersion| m@),
                forall|a: int, b: int| 0 <= a < b < n && a < i ==> ms[a].name != ms[b].name,
                forall|b: int| i < b < j ==> ms[i as int].name != ms[b].name,
            decreases n - j,
        {
            if recs[i].name.eq(&recs[j].name) {
                proof {
                    assert(ms[i as int] == recs@[i as int]@);
                    assert(ms[j as int] == recs@[j as int]@);
                    assert(ms[i as int].name == ms[j as int].name);
                }
                return false;
            }
            proof {
                assert(ms[i as int] == recs@[i as int]@);
                assert(ms[j as int] == recs@[j as int]@);
            }
            j = j + 1;
        }
        i = i + 1;
    }
    true
}

/// Parse a persisted registry document.  The result is the registry the
/// text denotes, or nothing where the text does not fit the format; a
/// parsed registry always satisfies the registry invariant.
pub fn parse_registry_json(text: &str) -> (r: Option<LocalModRegistry>)
    ensures
        match r {
            Some(reg) => parse_registry(text@) == Some(reg@) && reg.wf(),
            None => parse_registry(text@) is None,
        },
{
    let s = str_to_chars(text);
    let th = tok_header_vec();
    let i1 = match eat(&s, 0, &th) {
        Some(j) => j,
        None => {
            return None;
        },
    };
    let (recs, j) = match scan_records(&s, i1) {
        Some(p) => p,
        None => {
            return None;
        },
    };
    let tm = tok_mid_vec();
    let k = match eat(&s, j, &tm) {
        Some(p) => p,
        None => {
            return None;
        },
    };
    let (lc_cs, l) = match scan_string(&s, k) {
        Some(p) => p,
        None => {
            return None;
        },
    };
    let m = match eat_char(&s, l, '}') {
        Some(p) => p,
        None => {
            return None;
        },
    };
    if m != s.len() {
        return None;
    }
    if !names_unique(&recs) {
        return None;
    }
    let reg = LocalModRegistry { mods: recs, last_check: chars_to_string(&lc_cs) };
    Some(reg)
}

} // verus!