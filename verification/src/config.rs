//! Configuration rules: field defaults, server folders, which token is
//! usable, when a stored token needs migrating, and the command line.
//!
//! Reading and writing config.toml, the environment and token files is
//! the app's job; this module decides what the values mean.
use vstd::prelude::*;
use crate::secrets::{envelope_spec, EnvelopeV};
use crate::model::{guild_initials_spec, Guild};
use crate::snowflake::Snowflake;
use crate::text::{chars_of, dec, has_prefix, push_str, str_eq, str_starts_with, string_of, sub_chars, trim, trim_chars};

verus! {

pub fn default_true() -> (r: bool)
    ensures
        r,
{
    true
}

/// Message density: `"cozy"` unless configured.
pub fn default_density() -> (r: String)
    ensures
        r@ == "cozy"@,
{
    "cozy".to_string()
}

pub fn default_show_members() -> (r: bool)
    ensures
        r,
{
    true
}

pub fn default_badges() -> (r: bool)
    ensures
        r,
{
    true
}

pub fn default_title_mentions() -> (r: bool)
    ensures
        r,
{
    true
}

/// A server folder in the guild bar.
#[derive(Debug, Clone)]
pub struct GuildFolder {
    pub name: String,
    pub color: Option<String>,
    pub guild_ids: Vec<String>,
}

pub open spec fn folder_has(f: GuildFolder, gid: Snowflake) -> bool {
    exists|k: int| 0 <= k < f.guild_ids@.len() && #[trigger] f.guild_ids@[k]@ == dec(gid.0 as nat)
}

/// Index of the first folder that lists this guild.
pub fn folder_of(folders: &[GuildFolder], gid: Snowflake) -> (r: Option<usize>)
    ensures
        r matches Some(i) ==> i < folders@.len() && folder_has(folders@[i as int], gid)
            && forall|j: int| 0 <= j < i ==> !folder_has(#[trigger] folders@[j], gid),
        r is None ==> forall|j: int| 0 <= j < folders@.len() ==> !folder_has(#[trigger] folders@[j], gid),
{
    let id = gid.to_decimal();
    let mut i: usize = 0;
    while i < folders.len()
        invariant
            i <= folders@.len(),
            id@ == dec(gid.0 as nat),
            forall|j: int| 0 <= j < i ==> !folder_has(#[trigger] folders@[j], gid),
        decreases folders.len() - i,
    {
        let f = &folders[i];
        let mut found = false;
        let mut k: usize = 0;
        while k < f.guild_ids.len()
            invariant
                k <= f.guild_ids@.len(),
                found <==> exists|q: int| 0 <= q < k && #[trigger] f.guild_ids@[q]@ == id@,
            decreases f.guild_ids.len() - k,
        {
            if f.guild_ids[k] == id {
                found = true;
            }
            k += 1;
        }
        if found {
            return Some(i);
        }
        i += 1;
    }
    None
}

/// The ids left after every copy of `d` is taken out, in their order.
pub open spec fn ids_without(ids: Seq<Seq<char>>, d: Seq<char>) -> Seq<Seq<char>>
    decreases ids.len(),
{
    if ids.len() == 0 {
        Seq::empty()
    } else {
        let rest = ids_without(ids.drop_last(), d);
        if ids.last() == d {
            rest
        } else {
            rest.push(ids.last())
        }
    }
}

/// Name given to a folder started from a guild: its initials, then
/// `" & more"`.
pub open spec fn new_folder_name_spec(guild_name: Seq<char>) -> Seq<char> {
    guild_initials_spec(guild_name) + " & more"@
}

/// The folder `i` with its fields as in `f`, every other folder as in `old`,
/// and the list as long as before.
pub open spec fn only_folder_changed(old: Seq<GuildFolder>, new: Seq<GuildFolder>, i: int) -> bool {
    &&& new.len() == old.len()
    &&& 0 <= i < old.len()
    &&& forall|j: int| 0 <= j < old.len() && j != i ==> #[trigger] new[j] == old[j]
}

/// Name for a new folder started from this guild.
pub fn folder_new_name(g: &Guild) -> (r: String)
    ensures
        r@ == new_folder_name_spec(g.name@),
{
    let mut s = g.initials();
    push_str(&mut s, " & more");
    s
}

/// Start a new folder holding just this guild, at the end of the list.
/// It is named after the first guild with that id, or `"Folder"` when the
/// id is not among `guilds`.
pub fn folder_create(folders: &mut Vec<GuildFolder>, guilds: &[Guild], gid: Snowflake)
    ensures
        final(folders)@.len() == old(folders)@.len() + 1,
        final(folders)@.take(old(folders)@.len() as int) == old(folders)@,
        final(folders)@.last().color is None,
        strings_view(final(folders)@.last().guild_ids@) == seq![dec(gid.0 as nat)],
        (forall|j: int| 0 <= j < guilds@.len() ==> #[trigger] guilds@[j].id.0 != gid.0)
            ==> final(folders)@.last().name@ == "Folder"@,
        forall|i: int|
            0 <= i < guilds@.len() && #[trigger] guilds@[i].id.0 == gid.0
                && (forall|j: int| 0 <= j < i ==> #[trigger] guilds@[j].id.0 != gid.0)
                ==> final(folders)@.last().name@ == new_folder_name_spec(guilds@[i].name@),
{
    let mut i: usize = 0;
    while i < guilds.len() && guilds[i].id.0 != gid.0
        invariant
            i <= guilds@.len(),
            forall|j: int| 0 <= j < i ==> #[trigger] guilds@[j].id.0 != gid.0,
        decreases guilds.len() - i,
    {
        i += 1;
    }
    let name = if i < guilds.len() {
        folder_new_name(&guilds[i])
    } else {
        "Folder".to_string()
    };
    proof {
        assert forall|k: int|
            0 <= k < guilds@.len() && #[trigger] guilds@[k].id.0 == gid.0
                && (forall|j: int| 0 <= j < k ==> #[trigger] guilds@[j].id.0 != gid.0) implies k == i by {
            if k < i {
            } else if k > i {
                assert(guilds@[i as int].id.0 != gid.0);
            }
        }
    }
    let mut ids: Vec<String> = Vec::new();
    ids.push(gid.to_decimal());
    let ghost before = folders@;
    folders.push(GuildFolder { name, color: None, guild_ids: ids });
    proof {
        assert(folders@.take(before.len() as int) =~= before);
        assert(strings_view(folders@.last().guild_ids@) =~= seq![dec(gid.0 as nat)]);
    }
}

/// Take a guild out of folder `idx`; a folder left with no guild is
/// deleted. An index past the end changes nothing.
pub fn folder_remove_guild(folders: &mut Vec<GuildFolder>, idx: usize, gid: Snowflake)
    ensures
        idx >= old(folders)@.len() ==> final(folders)@ == old(folders)@,
        idx < old(folders)@.len() && ids_without(strings_view(old(folders)@[idx as int].guild_ids@), dec(gid.0 as nat)).len() == 0
            ==> final(folders)@ == old(folders)@.remove(idx as int),
        idx < old(folders)@.len() && ids_without(strings_view(old(folders)@[idx as int].guild_ids@), dec(gid.0 as nat)).len() > 0
            ==> {
                &&& only_folder_changed(old(folders)@, final(folders)@, idx as int)
                &&& final(folders)@[idx as int].name == old(folders)@[idx as int].name
                &&& final(folders)@[idx as int].color == old(folders)@[idx as int].color
                &&& strings_view(final(folders)@[idx as int].guild_ids@)
                    == ids_without(strings_view(old(folders)@[idx as int].guild_ids@), dec(gid.0 as nat))
            },
{
    if idx >= folders.len() {
        return;
    }
    let ghost before = folders@;
    let id = gid.to_decimal();
    let mut f = folders.remove(idx);
    let ghost sv = strings_view(f.guild_ids@);
    let mut kept: Vec<String> = Vec::new();
    let mut k: usize = 0;
    while k < f.guild_ids.len()
        invariant
            k <= f.guild_ids@.len(),
            sv == strings_view(f.guild_ids@),
            id@ == dec(gid.0 as nat),
            strings_view(kept@) == ids_without(sv.take(k as int), id@),
        decreases f.guild_ids.len() - k,
    {
        proof {
            assert(sv.take(k + 1).drop_last() =~= sv.take(k as int));
            assert(sv.take(k + 1).last() == f.guild_ids@[k as int]@);
        }
        if f.guild_ids[k] != id {
            let ghost old_kept = kept@;
            kept.push(f.guild_ids[k].clone());
            proof {
                assert(strings_view(kept@) =~= strings_view(old_kept).push(f.guild_ids@[k as int]@));
            }
        }
        k += 1;
    }
    proof {
        assert(sv.take(sv.len() as int) =~= sv);
    }
    if kept.len() > 0 {
        f.guild_ids = kept;
        folders.insert(idx, f);
        proof {
            assert forall|j: int| 0 <= j < before.len() && j != idx implies #[trigger] folders@[j] == before[j] by {
                if j < idx {
                } else {
                    assert(folders@[j] == before.remove(idx as int)[j - 1]);
                }
            }
        }
    } else {
        proof {
            assert(strings_view(kept@).len() == 0);
        }
    }
}

/// Put a guild into the first folder with this name, at the end of its
/// list. `None`, and nothing changed, when no folder has the name.
pub fn folder_add_guild(folders: &mut Vec<GuildFolder>, folder_name: &str, gid: Snowflake) -> (r: Option<usize>)
    ensures
        r is None ==> final(folders)@ == old(folders)@
            && forall|j: int| 0 <= j < old(folders)@.len() ==> #[trigger] old(folders)@[j].name@ != folder_name@,
        r matches Some(i) ==> {
            &&& old(folders)@[i as int].name@ == folder_name@
            &&& forall|j: int| 0 <= j < i ==> #[trigger] old(folders)@[j].name@ != folder_name@
            &&& only_folder_changed(old(folders)@, final(folders)@, i as int)
            &&& final(folders)@[i as int].name == old(folders)@[i as int].name
            &&& final(folders)@[i as int].color == old(folders)@[i as int].color
            &&& strings_view(final(folders)@[i as int].guild_ids@)
                == strings_view(old(folders)@[i as int].guild_ids@).push(dec(gid.0 as nat))
        },
{
    let mut i: usize = 0;
    while i < folders.len() && !str_eq(folders[i].name.as_str(), folder_name)
        invariant
            i <= folders@.len(),
            forall|j: int| 0 <= j < i ==> #[trigger] folders@[j].name@ != folder_name@,
        decreases folders.len() - i,
    {
        i += 1;
    }
    if i == folders.len() {
        return None;
    }
    let ghost before = folders@;
    let mut f = folders.remove(i);
    let ghost ids0 = f.guild_ids@;
    f.guild_ids.push(gid.to_decimal());
    proof {
        assert(strings_view(f.guild_ids@) =~= strings_view(ids0).push(dec(gid.0 as nat)));
    }
    folders.insert(i, f);
    proof {
        assert forall|j: int| 0 <= j < before.len() && j != i implies #[trigger] folders@[j] == before[j] by {
            if j < i {
            } else {
                assert(folders@[j] == before.remove(i as int)[j - 1]);
            }
        }
    }
    Some(i)
}

/// Delete folder `idx`; its guilds go back to the bar. `false`, and
/// nothing changed, for an index past the end.
pub fn folder_delete(folders: &mut Vec<GuildFolder>, idx: usize) -> (r: bool)
    ensures
        r == (idx < old(folders)@.len()),
        r ==> final(folders)@ == old(folders)@.remove(idx as int),
        !r ==> final(folders)@ == old(folders)@,
{
    if idx < folders.len() {
        folders.remove(idx);
        true
    } else {
        false
    }
}

/// Rename folder `idx` to the trimmed name. A name that trims to nothing,
/// or an index past the end, changes nothing and gives `false`.
pub fn folder_rename(folders: &mut Vec<GuildFolder>, idx: usize, name: &str) -> (r: bool)
    ensures
        r == (idx < old(folders)@.len() && trim(name@).len() > 0),
        !r ==> final(folders)@ == old(folders)@,
        r ==> {
            &&& only_folder_changed(old(folders)@, final(folders)@, idx as int)
            &&& final(folders)@[idx as int].name@ == trim(name@)
            &&& final(folders)@[idx as int].color == old(folders)@[idx as int].color
            &&& final(folders)@[idx as int].guild_ids == old(folders)@[idx as int].guild_ids
        },
{
    let t = trim_chars(chars_of(name).as_slice());
    if t.len() == 0 || idx >= folders.len() {
        return false;
    }
    let ghost before = folders@;
    let mut f = folders.remove(idx);
    f.name = string_of(t.as_slice());
    folders.insert(idx, f);
    proof {
        assert forall|j: int| 0 <= j < before.len() && j != idx implies #[trigger] folders@[j] == before[j] by {
            if j < idx {
            } else {
                assert(folders@[j] == before.remove(idx as int)[j - 1]);
            }
        }
    }
    true
}

/// A stored token value that is not an envelope is a legacy plaintext
/// token and must be sealed into the OS store.
pub fn needs_migration(stored: &str) -> (r: bool)
    ensures
        r == (envelope_spec(stored@) is Legacy),
        r == (!has_prefix(stored@, "dpapi:"@) && !has_prefix(stored@, "keychain:"@) && !has_prefix(stored@, "file:"@)),
{
    !str_starts_with(stored, "dpapi:") && !str_starts_with(stored, "keychain:") && !str_starts_with(stored, "file:")
}

pub open spec fn usable_spec(t: Seq<char>) -> Option<Seq<char>> {
    if trim(t).len() > 0 { Some(trim(t)) } else { None }
}

/// A token is usable once trimmed and non-empty.
pub fn usable_token(t: &str) -> (r: Option<String>)
    ensures
        r matches Some(s) ==> usable_spec(t@) == Some(s@),
        r is None <==> usable_spec(t@) is None,
{
    let cs = chars_of(t);
    let tr = trim_chars(cs.as_slice());
    if tr.len() == 0 {
        None
    } else {
        Some(string_of(tr.as_slice()))
    }
}

/// The token for this session: a usable session override (`--token` or
/// `DISCORD_TOKEN`) wins; otherwise the unsealed stored token, if usable.
pub fn choose_token(session_override: Option<&str>, unsealed: Option<&str>) -> (r: Option<String>)
    ensures
        ({
            let from_override = match session_override { Some(o) => usable_spec(o@), None => None };
            let from_store = match unsealed { Some(u) => usable_spec(u@), None => None };
            let want = if from_override is Some { from_override } else { from_store };
            &&& r matches Some(s) ==> want == Some(s@)
            &&& r is None <==> want is None
        }),
{
    if let Some(o) = session_override {
        if let Some(t) = usable_token(o) {
            return Some(t);
        }
    }
    match unsealed {
        Some(u) => usable_token(u),
        None => None,
    }
}

/// Where `--token` takes its value from.
#[derive(Debug, PartialEq, Eq)]
pub enum TokenArg {
    /// The token itself.
    Literal(String),
    /// `@<path>`: a file holding the token (read and trimmed by the app).
    File(String),
}

/// The command line, once parsed.
#[derive(Debug, Default, PartialEq, Eq)]
pub struct Args {
    /// Token override (a literal, or a file to read it from).
    pub token: Option<TokenArg>,
    /// Config file path override.
    pub config: Option<String>,
    /// Print version + binary metadata and exit.
    pub print_version: bool,
    /// Verbose logging: 1 = info, 2 = trace.
    pub verbose: u8,
}

/// What the command line asks for.
#[derive(Debug, PartialEq, Eq)]
pub enum Cli {
    /// `-h` / `--help`: print the help and exit.
    Help,
    Run(Args),
}

/// `Args` with its texts as character sequences; a token is
/// `(is_file, text)`.
pub struct ArgsV {
    pub token: Option<(bool, Seq<char>)>,
    pub config: Option<Seq<char>>,
    pub print_version: bool,
    pub verbose: u8,
}

pub enum CliV {
    Help,
    Run(ArgsV),
}

pub open spec fn args_view(a: Args) -> ArgsV {
    ArgsV {
        token: match a.token {
            Some(TokenArg::Literal(t)) => Some((false, t@)),
            Some(TokenArg::File(p)) => Some((true, p@)),
            None => None,
        },
        config: match a.config { Some(c) => Some(c@), None => None },
        print_version: a.print_version,
        verbose: a.verbose,
    }
}

pub open spec fn no_args() -> ArgsV {
    ArgsV { token: None, config: None, print_version: false, verbose: 0 }
}

pub open spec fn token_arg_spec(s: Seq<char>) -> (bool, Seq<char>) {
    if s.len() > 0 && s[0] == '@' { (true, s.drop_first()) } else { (false, s) }
}

/// `str::trim_start_matches` for a non-empty pattern: every leading copy
/// is removed.
pub open spec fn strip_all(s: Seq<char>, p: Seq<char>) -> Seq<char>
    decreases s.len(),
{
    if p.len() > 0 && has_prefix(s, p) { strip_all(s.subrange(p.len() as int, s.len() as int), p) } else { s }
}

/// The argument grammar, from argument `i` on, with `a` parsed so far.
pub open spec fn parse_args_from(raw: Seq<Seq<char>>, i: int, a: ArgsV) -> Result<CliV, Seq<char>>
    decreases raw.len() - i,
{
    if i < 0 || i >= raw.len() {
        Ok(CliV::Run(a))
    } else {
        let arg = raw[i];
        if arg == "-h"@ || arg == "--help"@ {
            Ok(CliV::Help)
        } else if arg == "-V"@ || arg == "--version"@ {
            parse_args_from(raw, i + 1, ArgsV { print_version: true, ..a })
        } else if arg == "-v"@ {
            parse_args_from(raw, i + 1, ArgsV { verbose: 1, ..a })
        } else if arg == "-vv"@ {
            parse_args_from(raw, i + 1, ArgsV { verbose: 2, ..a })
        } else if arg == "-t"@ || arg == "--token"@ {
            if i + 1 >= raw.len() {
                Err("\""@ + arg + "\" requires an argument"@)
            } else {
                parse_args_from(raw, i + 2, ArgsV { token: Some(token_arg_spec(raw[i + 1])), ..a })
            }
        } else if arg == "-c"@ || arg == "--config"@ {
            if i + 1 >= raw.len() {
                Err("\""@ + arg + "\" requires an argument"@)
            } else {
                parse_args_from(raw, i + 2, ArgsV { config: Some(raw[i + 1]), ..a })
            }
        } else if has_prefix(arg, "--token="@) {
            parse_args_from(raw, i + 1, ArgsV { token: Some(token_arg_spec(strip_all(arg, "--token="@))), ..a })
        } else if has_prefix(arg, "--config="@) {
            parse_args_from(raw, i + 1, ArgsV { config: Some(strip_all(arg, "--config="@)), ..a })
        } else {
            Err("unknown argument: "@ + arg)
        }
    }
}

/// Parsing from a position only depends on the arguments from there on.
proof fn lemma_parse_shift(pre: Seq<Seq<char>>, post: Seq<Seq<char>>, j: int, a: ArgsV)
    requires
        0 <= j,
    ensures
        parse_args_from(pre + post, pre.len() + j, a) == parse_args_from(post, j, a),
    decreases post.len() - j,
{
    let raw = pre + post;
    if j < post.len() {
        assert(raw[pre.len() + j] == post[j]);
        if j + 1 < post.len() {
            assert(raw[pre.len() + j + 1] == post[j + 1]);
        }
        lemma_parse_shift(pre, post, j + 1, a);
        let arg = post[j];
        if j + 1 < post.len() {
            lemma_parse_shift(pre, post, j + 2, ArgsV { config: Some(post[j + 1]), ..a });
            lemma_parse_shift(pre, post, j + 2, ArgsV { token: Some(token_arg_spec(post[j + 1])), ..a });
        }
        lemma_parse_shift(pre, post, j + 1, ArgsV { print_version: true, ..a });
        lemma_parse_shift(pre, post, j + 1, ArgsV { verbose: 1, ..a });
        lemma_parse_shift(pre, post, j + 1, ArgsV { verbose: 2, ..a });
        lemma_parse_shift(pre, post, j + 1, ArgsV { token: Some(token_arg_spec(strip_all(arg, "--token="@))), ..a });
        lemma_parse_shift(pre, post, j + 1, ArgsV { config: Some(strip_all(arg, "--config="@)), ..a });
    }
}

proof fn lemma_config_flag(p: Seq<char>, post: Seq<Seq<char>>, a: ArgsV)
    requires
        !has_prefix(p, "--config="@),
    ensures
        parse_args_from(seq!["-c"@, p] + post, 0, a) == parse_args_from(post, 0, ArgsV { config: Some(p), ..a }),
        parse_args_from(seq!["--config"@, p] + post, 0, a) == parse_args_from(post, 0, ArgsV { config: Some(p), ..a }),
        parse_args_from(seq!["--config="@ + p] + post, 0, a) == parse_args_from(post, 0, ArgsV { config: Some(p), ..a }),
{
    reveal_strlit("-h");
    reveal_strlit("--help");
    reveal_strlit("-V");
    reveal_strlit("--version");
    reveal_strlit("-v");
    reveal_strlit("-vv");
    reveal_strlit("-t");
    reveal_strlit("--token");
    reveal_strlit("-c");
    reveal_strlit("--config");
    reveal_strlit("--token=");
    reveal_strlit("--config=");
    let b = ArgsV { config: Some(p), ..a };
    let c = "-c"@;
    assert(c[1] == 'c' && c.len() == 2);
    assert(c != "-h"@) by { assert("-h"@[1] == 'h'); }
    assert(c != "-V"@) by { assert("-V"@[1] == 'V'); }
    assert(c != "-v"@) by { assert("-v"@[1] == 'v'); }
    assert(c != "-t"@) by { assert("-t"@[1] == 't'); }
    let r1 = seq!["-c"@, p] + post;
    assert(r1[0] == "-c"@ && r1[1] == p);
    lemma_parse_shift(seq!["-c"@, p], post, 0, b);
    let r2 = seq!["--config"@, p] + post;
    assert(r2[0] == "--config"@ && r2[1] == p);
    lemma_parse_shift(seq!["--config"@, p], post, 0, b);
    let arg = "--config="@ + p;
    let r3 = seq![arg] + post;
    assert(r3[0] == arg);
    assert(has_prefix(arg, "--config="@)) by {
        assert(arg.subrange(0, 9) =~= "--config="@);
    }
    assert(!has_prefix(arg, "--token="@)) by {
        assert(arg[2] == 'c');
    }
    assert(arg.len() >= 9);
    assert(arg != "-h"@ && arg != "--help"@ && arg != "-V"@ && arg != "--version"@ && arg != "-v"@ && arg != "-vv"@
        && arg != "-t"@ && arg != "--token"@ && arg != "-c"@ && arg != "--config"@) by {
        assert(arg[2] == 'c' && arg[8] == '=');
    }
    assert(arg.subrange(9, arg.len() as int) =~= p);
    assert(strip_all(p, "--config="@) == p);
    assert(strip_all(arg, "--config="@) == strip_all(arg.subrange(9, arg.len() as int), "--config="@));
    assert(strip_all(arg, "--config="@) == p);
    lemma_parse_shift(seq![arg], post, 0, b);
}

/// `-c P` and `--config P` set the config path to `P`, exactly as
/// `--config=P` does (for a `P` that does not itself start with
/// `--config=`), whatever was parsed before and whatever follows; alone,
/// they give `Run` with only the config path set.
pub proof fn law_config_flag(p: Seq<char>, post: Seq<Seq<char>>, a: ArgsV)
    requires
        !has_prefix(p, "--config="@),
    ensures
        parse_args_from(seq!["-c"@, p] + post, 0, a) == parse_args_from(post, 0, ArgsV { config: Some(p), ..a }),
        parse_args_from(seq!["--config"@, p] + post, 0, a) == parse_args_from(post, 0, ArgsV { config: Some(p), ..a }),
        parse_args_from(seq!["--config="@ + p] + post, 0, a) == parse_args_from(post, 0, ArgsV { config: Some(p), ..a }),
        parse_args_from(seq!["-c"@, p], 0, no_args()) == Ok::<CliV, Seq<char>>(CliV::Run(ArgsV { config: Some(p), ..no_args() })),
{
    lemma_config_flag(p, post, a);
    let e = Seq::<Seq<char>>::empty();
    lemma_config_flag(p, e, no_args());
    assert(seq!["-c"@, p] + e =~= seq!["-c"@, p]);
}

pub open spec fn strings_view(v: Seq<String>) -> Seq<Seq<char>> {
    v.map_values(|s: String| s@)
}

fn token_arg(s: &str) -> (r: TokenArg)
    ensures
        token_arg_spec(s@).0 ==> (r matches TokenArg::File(p) && p@ == token_arg_spec(s@).1),
        !token_arg_spec(s@).0 ==> (r matches TokenArg::Literal(t) && t@ == s@),
{
    let cs = chars_of(s);
    if cs.len() > 0 && cs[0] == '@' {
        let rest = sub_chars(cs.as_slice(), 1, cs.len());
        assert(rest@ =~= s@.drop_first());
        TokenArg::File(string_of(rest.as_slice()))
    } else {
        TokenArg::Literal(s.to_string())
    }
}

fn strip_all_exec(s: &str, p: &str) -> (r: String)
    requires
        p@.len() > 0,
    ensures
        r@ == strip_all(s@, p@),
{
    let ps = chars_of(p);
    let mut cur = chars_of(s);
    while cur.len() >= ps.len() && crate::text::chars_match_at(cur.as_slice(), 0, ps.as_slice())
        invariant
            ps@ == p@,
            ps@.len() > 0,
            strip_all(cur@, p@) == strip_all(s@, p@),
        decreases cur@.len(),
    {
        assert(has_prefix(cur@, p@));
        cur = sub_chars(cur.as_slice(), ps.len(), cur.len());
    }
    assert(!has_prefix(cur@, p@));
    string_of(cur.as_slice())
}

fn missing_value(arg: &str) -> (r: String)
    ensures
        r@ == "\""@ + arg@ + "\" requires an argument"@,
{
    let mut m = String::new();
    crate::text::push_str(&mut m, "\"");
    crate::text::push_str(&mut m, arg);
    crate::text::push_str(&mut m, "\" requires an argument");
    m
}

/// Parses the arguments after the program name. Flags: `-h/--help`,
/// `-V/--version`, `-v`, `-vv`, `-t/--token <T|@PATH>`, `--token=`,
/// `-c/--config PATH`, `--config=`. A flag missing its value, or an
/// unknown argument, is an error naming it.
pub fn parse_args(raw: &[String]) -> (r: Result<Cli, String>)
    ensures
        ({
            let want = parse_args_from(strings_view(raw@), 0, no_args());
            &&& (r matches Ok(Cli::Help) ==> (want matches Ok(CliV::Help)))
            &&& (r matches Ok(Cli::Run(a)) ==> want == Ok::<CliV, Seq<char>>(CliV::Run(args_view(a))))
            &&& (r matches Err(m) ==> want == Err::<CliV, Seq<char>>(m@))
            &&& ((want matches Ok(CliV::Help)) ==> (r matches Ok(Cli::Help)))
        }),
{
    let ghost rv = strings_view(raw@);
    let mut a = Args { token: None, config: None, print_version: false, verbose: 0 };
    let mut i: usize = 0;
    while i < raw.len()
        invariant
            i <= raw@.len(),
            rv == strings_view(raw@),
            parse_args_from(rv, i as int, args_view(a)) == parse_args_from(rv, 0, no_args()),
        decreases raw.len() - i,
    {
        let arg = raw[i].as_str();
        assert(rv[i as int] == arg@);
        if str_eq(arg, "-h") || str_eq(arg, "--help") {
            return Ok(Cli::Help);
        } else if str_eq(arg, "-V") || str_eq(arg, "--version") {
            a.print_version = true;
        } else if str_eq(arg, "-v") {
            a.verbose = 1;
        } else if str_eq(arg, "-vv") {
            a.verbose = 2;
        } else if str_eq(arg, "-t") || str_eq(arg, "--token") {
            if i + 1 >= raw.len() {
                return Err(missing_value(arg));
            }
            i += 1;
            assert(rv[i as int] == raw@[i as int]@);
            a.token = Some(token_arg(raw[i].as_str()));
        } else if str_eq(arg, "-c") || str_eq(arg, "--config") {
            if i + 1 >= raw.len() {
                return Err(missing_value(arg));
            }
            i += 1;
            assert(rv[i as int] == raw@[i as int]@);
            a.config = Some(raw[i].clone());
        } else if str_starts_with(arg, "--token=") {
            proof { reveal_strlit("--token="); }
            let rest = strip_all_exec(arg, "--token=");
            a.token = Some(token_arg(rest.as_str()));
        } else if str_starts_with(arg, "--config=") {
            proof { reveal_strlit("--config="); }
            a.config = Some(strip_all_exec(arg, "--config="));
        } else {
            let mut m = String::new();
            crate::text::push_str(&mut m, "unknown argument: ");
            crate::text::push_str(&mut m, arg);
            return Err(m);
        }
        i += 1;
    }
    Ok(Cli::Run(a))
}

} // verus!
