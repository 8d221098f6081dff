//! A client's configuration file: registering the server in it and taking it
//! out again.

use crate::json::{
    empty_array, empty_object, lemma_object_view, member, member_rows, Json, JsonView,
};
use crate::models::opt_text;
use crate::serial::{parse_json, parse_value, parsed_json, pretty_json, print_json, print_value};
use crate::text::{lowercase, same_text, str_text, texts, to_lowercase};
use vstd::prelude::*;
use vstd::string::*;

verus! {

/// The key under which most clients keep their servers.
pub const DEFAULT_KEY: &'static str = "mcpServers";

/// The name under which the server is registered.
pub const SERVER_NAME: &'static str = "memdag";

/// The configuration file of a project.
pub const PROJECT_CONFIG: &'static str = ".mcp.json";

/// Which configuration file is meant.
#[derive(Debug, Clone, Copy, PartialEq, Eq, Structural)]
pub enum ConfigLocation {
    /// The file that was named.
    Named,
    /// The client's file in the home directory.
    User,
    /// [`PROJECT_CONFIG`] in the working directory.
    Project,
}

/// Which configuration file is meant: a named one before all others.
pub fn mcp_config_path(global: bool, is_named: bool) -> (res: ConfigLocation)
    ensures
        res == (if is_named {
            ConfigLocation::Named
        } else if global {
            ConfigLocation::User
        } else {
            ConfigLocation::Project
        }),
{
    if is_named {
        ConfigLocation::Named
    } else if global {
        ConfigLocation::User
    } else {
        ConfigLocation::Project
    }
}

/// Members with `value` under `key`: in place of the first member with that
/// key, or at the end where there is none.
pub open spec fn put_member(
    members: Seq<(Seq<char>, JsonView)>,
    key: Seq<char>,
    value: JsonView,
) -> Seq<(Seq<char>, JsonView)>
    decreases members.len(),
{
    if members.len() == 0 {
        seq![(key, value)]
    } else if members[0].0 == key {
        seq![(key, value)] + members.drop_first()
    } else {
        seq![members[0]] + put_member(members.drop_first(), key, value)
    }
}

/// A member that is not under `key`.
pub open spec fn is_other(m: (Seq<char>, JsonView), key: Seq<char>) -> bool {
    m.0 != key
}

/// Members without those under `key`.
pub open spec fn drop_member(members: Seq<(Seq<char>, JsonView)>, key: Seq<char>) -> Seq<
    (Seq<char>, JsonView),
> {
    members.filter(|m: (Seq<char>, JsonView)| is_other(m, key))
}

/// How the server is started.
pub open spec fn server_entry(command: Seq<char>, db: Option<Seq<char>>) -> JsonView {
    let entry = empty_object().with("command"@, JsonView::Text(command)).with(
        "args"@,
        empty_array().item(JsonView::Text("serve"@)),
    );
    match db {
        Some(path) => entry.with("env"@, empty_object().with("MEMDAG_DB"@, JsonView::Text(path))),
        None => entry,
    }
}

/// Why a configuration is left as it is.
#[derive(Debug, Clone, Copy, PartialEq, Eq, Structural)]
pub enum ConfigError {
    /// The file does not hold an object.
    RootNotObject,
    /// What stands under the key is no object.
    KeyNotObject,
}

/// The configuration with the server under `key`.
pub open spec fn installed(root: JsonView, key: Seq<char>, entry: JsonView) -> Result<
    JsonView,
    ConfigError,
> {
    match root {
        JsonView::Object(members) => match member(members, key) {
            None => Ok(
                JsonView::Object(
                    put_member(members, key, empty_object().with(SERVER_NAME@, entry)),
                ),
            ),
            Some(JsonView::Object(servers)) => Ok(
                JsonView::Object(
                    put_member(
                        members,
                        key,
                        JsonView::Object(put_member(servers, SERVER_NAME@, entry)),
                    ),
                ),
            ),
            Some(_) => Err(ConfigError::KeyNotObject),
        },
        _ => Err(ConfigError::RootNotObject),
    }
}

/// Whether the server is registered under `key`.
pub open spec fn is_installed(root: JsonView, key: Seq<char>) -> bool {
    match root.get(key) {
        Some(servers) => servers.get(SERVER_NAME@) is Some,
        None => false,
    }
}

/// The configuration without the server under `key`.
pub open spec fn uninstalled(root: JsonView, key: Seq<char>) -> JsonView {
    match root {
        JsonView::Object(members) => match member(members, key) {
            Some(JsonView::Object(servers)) => JsonView::Object(
                put_member(members, key, JsonView::Object(drop_member(servers, SERVER_NAME@))),
            ),
            _ => root,
        },
        _ => root,
    }
}

/// Where the first member with the key is.
spec fn first_at(members: Seq<(Seq<char>, JsonView)>, key: Seq<char>, i: int) -> bool {
    &&& 0 <= i < members.len()
    &&& members[i].0 == key
    &&& forall|k: int| 0 <= k < i ==> (#[trigger] members[k]).0 != key
}

proof fn lemma_first_member(members: Seq<(Seq<char>, JsonView)>, key: Seq<char>, i: int)
    requires
        first_at(members, key, i),
    ensures
        member(members, key) == Some(members[i].1),
        forall|v: JsonView| #[trigger]
            put_member(members, key, v) == members.update(i, (key, v)),
    decreases members.len(),
{
    let rest = members.drop_first();
    if i > 0 {
        assert(members[0].0 != key);
        assert forall|k: int| 0 <= k < i - 1 implies (#[trigger] rest[k]).0 != key by {
            assert(rest[k] == members[k + 1]);
        }
        lemma_first_member(rest, key, i - 1);
        assert forall|v: JsonView| #[trigger]
            put_member(members, key, v) == members.update(i, (key, v)) by {
            assert(put_member(rest, key, v) == rest.update(i - 1, (key, v)));
            assert(seq![members[0]] + rest.update(i - 1, (key, v)) =~= members.update(
                i,
                (key, v),
            ));
        }
    } else {
        assert forall|v: JsonView| #[trigger]
            put_member(members, key, v) == members.update(i, (key, v)) by {
            assert(seq![(key, v)] + rest =~= members.update(0, (key, v)));
        }
    }
}

proof fn lemma_no_member(members: Seq<(Seq<char>, JsonView)>, key: Seq<char>)
    requires
        forall|k: int| 0 <= k < members.len() ==> (#[trigger] members[k]).0 != key,
    ensures
        member(members, key) is None,
        forall|v: JsonView| #[trigger] put_member(members, key, v) == members.push((key, v)),
    decreases members.len(),
{
    if members.len() > 0 {
        let rest = members.drop_first();
        assert(members[0].0 != key);
        assert forall|k: int| 0 <= k < rest.len() implies (#[trigger] rest[k]).0 != key by {
            assert(rest[k] == members[k + 1]);
        }
        lemma_no_member(rest, key);
        assert forall|v: JsonView| #[trigger]
            put_member(members, key, v) == members.push((key, v)) by {
            assert(put_member(rest, key, v) == rest.push((key, v)));
            assert(seq![members[0]] + rest.push((key, v)) =~= members.push((key, v)));
        }
    } else {
        assert forall|v: JsonView| #[trigger]
            put_member(members, key, v) == members.push((key, v)) by {
            assert(seq![(key, v)] =~= members.push((key, v)));
        }
    }
}

/// Where the first member with the key is.
fn find_member(members: &Vec<(String, Json)>, key: &str) -> (res: Option<usize>)
    ensures
        match res {
            Some(i) => first_at(member_rows(members@), key@, i as int),
            None => forall|k: int|
                0 <= k < members@.len() ==> (#[trigger] member_rows(members@)[k]).0 != key@,
        },
{
    let ghost rows = member_rows(members@);
    let mut i: usize = 0;
    while i < members.len()
        invariant
            i <= members@.len(),
            rows == member_rows(members@),
            forall|k: int| 0 <= k < i ==> (#[trigger] rows[k]).0 != key@,
        decreases members@.len() - i,
    {
        proof {
            assert(rows[i as int].0 == members@[i as int].0@);
        }
        if same_text(members[i].0.as_str(), key) {
            return Some(i);
        }
        i += 1;
    }
    None
}

/// Puts `value` under `key`.
fn set_member(members: &mut Vec<(String, Json)>, key: &str, value: Json)
    ensures
        member_rows(final(members)@) == put_member(member_rows(old(members)@), key@, value@),
{
    let ghost rows = member_rows(members@);
    match find_member(members, key) {
        Some(i) => {
            proof {
                lemma_first_member(rows, key@, i as int);
            }
            members.set(i, (key.to_owned(), value));
            proof {
                assert(member_rows(members@) =~= rows.update(i as int, (key@, value@)));
            }
        },
        None => {
            proof {
                lemma_no_member(rows, key@);
            }
            members.push((key.to_owned(), value));
            proof {
                assert(member_rows(members@) =~= rows.push((key@, value@)));
            }
        },
    }
}

/// How the server is started.
pub fn make_server_entry(command: &str, db: Option<&str>) -> (res: Json)
    ensures
        res@ == server_entry(command@, str_text(db)),
{
    let entry = Json::object().with("command", Json::text(command)).with(
        "args",
        Json::array().item(Json::text("serve")),
    );
    match db {
        Some(path) => entry.with("env", Json::object().with("MEMDAG_DB", Json::text(path))),
        None => entry,
    }
}

/// What became of a registration.
pub open spec fn config_value(res: Result<Json, ConfigError>) -> Result<JsonView, ConfigError> {
    match res {
        Ok(json) => Ok(json@),
        Err(e) => Err(e),
    }
}

/// The configuration with the server under `key`. Nothing else in it changes.
pub fn install(root: Json, key: &str, entry: Json) -> (res: Result<Json, ConfigError>)
    ensures
        config_value(res) == installed(root@, key@, entry@),
{
    broadcast use lemma_object_view;

    let mut members = match root {
        Json::Object(members) => members,
        _ => {
            return Err(ConfigError::RootNotObject);
        },
    };
    let ghost rows = member_rows(members@);
    match find_member(&members, key) {
        None => {
            proof {
                lemma_no_member(rows, key@);
            }
            let servers = Json::object().with(SERVER_NAME, entry);
            set_member(&mut members, key, servers);
            Ok(Json::Object(members))
        },
        Some(i) => {
            proof {
                lemma_first_member(rows, key@, i as int);
            }
            let old_entry = members.remove(i);
            proof {
                assert(rows[i as int] == (old_entry.0@, old_entry.1@));
            }
            match old_entry.1 {
                Json::Object(servers) => {
                    let mut servers = servers;
                    set_member(&mut servers, SERVER_NAME, entry);
                    let updated = Json::Object(servers);
                    members.insert(i, (key.to_owned(), updated));
                    proof {
                        assert(member_rows(members@) =~= rows.update(i as int, (key@, updated@)));
                    }
                    Ok(Json::Object(members))
                },
                _ => Err(ConfigError::KeyNotObject),
            }
        },
    }
}

/// The members that are not under the key.
fn without_member(members: Vec<(String, Json)>, key: &str) -> (res: Vec<(String, Json)>)
    ensures
        member_rows(res@) == drop_member(member_rows(members@), key@),
{
    let ghost rows = member_rows(members@);
    let ghost keep = |m: (Seq<char>, JsonView)| is_other(m, key@);
    let mut rest = members;
    let mut kept: Vec<(String, Json)> = Vec::new();
    proof {
        assert(rows.take(rest@.len() as int) =~= rows);
        assert(member_rows(kept@).reverse() =~= Seq::empty());
        assert(rows.skip(rest@.len() as int).filter(keep) =~= Seq::empty());
    }
    while rest.len() > 0
        invariant
            rest@.len() <= rows.len(),
            keep == (|m: (Seq<char>, JsonView)| is_other(m, key@)),
            member_rows(rest@) == rows.take(rest@.len() as int),
            member_rows(kept@).reverse() == rows.skip(rest@.len() as int).filter(keep),
        decreases rest@.len(),
    {
        let ghost n = rest@.len() as int;
        let ghost whole = member_rows(rest@);
        let last = rest.pop();
        proof {
            assert(member_rows(rest@) =~= whole.drop_last());
            assert(rows.take(n).drop_last() =~= rows.take(n - 1));
        }
        if let Some(m) = last {
            proof {
                assert(whole[n - 1] == rows[n - 1]);
                assert(rows[n - 1] == (m.0@, m.1@));
                assert(rows.skip(n - 1) =~= seq![rows[n - 1]] + rows.skip(n));
                lemma_filter_front(rows[n - 1], rows.skip(n), keep);
            }
            if !same_text(m.0.as_str(), key) {
                let ghost before = member_rows(kept@);
                kept.push(m);
                proof {
                    assert(member_rows(kept@) =~= before.push(rows[n - 1]));
                    assert(before.push(rows[n - 1]).reverse() =~= seq![rows[n - 1]]
                        + before.reverse());
                }
            }
        }
    }
    proof {
        assert(rows.skip(0) =~= rows);
    }
    let ghost found = member_rows(kept@);
    let mut res: Vec<(String, Json)> = Vec::new();
    proof {
        assert(found.take(kept@.len() as int) =~= found);
        assert(member_rows(res@) =~= found.skip(kept@.len() as int).reverse());
    }
    while kept.len() > 0
        invariant
            kept@.len() <= found.len(),
            member_rows(kept@) == found.take(kept@.len() as int),
            member_rows(res@) == found.skip(kept@.len() as int).reverse(),
        decreases kept@.len(),
    {
        let ghost n = kept@.len() as int;
        let ghost whole = member_rows(kept@);
        let last = kept.pop();
        proof {
            assert(member_rows(kept@) =~= whole.drop_last());
            assert(found.take(n).drop_last() =~= found.take(n - 1));
        }
        if let Some(m) = last {
            let ghost before = member_rows(res@);
            proof {
                assert(whole[n - 1] == found[n - 1]);
                assert(found[n - 1] == (m.0@, m.1@));
            }
            res.push(m);
            proof {
                assert(member_rows(res@) =~= before.push(found[n - 1]));
                assert(found.skip(n - 1) =~= seq![found[n - 1]] + found.skip(n));
                assert(found.skip(n - 1).reverse() =~= found.skip(n).reverse().push(found[n - 1]));
            }
        }
    }
    proof {
        assert(found.skip(0) =~= found);
    }
    res
}

/// What passes a filter in front of a sequence comes first.
proof fn lemma_filter_front(
    x: (Seq<char>, JsonView),
    s: Seq<(Seq<char>, JsonView)>,
    keep: spec_fn((Seq<char>, JsonView)) -> bool,
)
    ensures
        (seq![x] + s).filter(keep) == if keep(x) {
            seq![x] + s.filter(keep)
        } else {
            s.filter(keep)
        },
    decreases s.len(),
{
    reveal(Seq::filter);
    if s.len() == 0 {
        let none = Seq::<(Seq<char>, JsonView)>::empty();
        assert(s =~= none);
        assert(none.filter(keep) =~= none);
        assert((seq![x] + s).drop_last() =~= none);
        assert((seq![x] + s).last() == x);
        assert(none.push(x) =~= seq![x] + none);
    } else {
        assert((seq![x] + s).drop_last() =~= seq![x] + s.drop_last());
        lemma_filter_front(x, s.drop_last(), keep);
        if keep(s.last()) {
            assert((seq![x] + s.drop_last().filter(keep)).push(s.last()) =~= seq![x]
                + s.drop_last().filter(keep).push(s.last()));
        }
    }
}

/// The configuration without the server under `key`, and whether it was there.
/// Nothing else in it changes.
pub fn uninstall(root: Json, key: &str) -> (res: (Json, bool))
    ensures
        res.1 == is_installed(root@, key@),
        res.0@ == uninstalled(root@, key@),
{
    broadcast use lemma_object_view;

    let removed = match root.get(key) {
        Some(servers) => servers.get(SERVER_NAME).is_some(),
        None => false,
    };
    let mut members = match root {
        Json::Object(members) => members,
        other => {
            return (other, removed);
        },
    };
    let ghost rows = member_rows(members@);
    match find_member(&members, key) {
        None => {
            proof {
                lemma_no_member(rows, key@);
            }
            (Json::Object(members), removed)
        },
        Some(i) => {
            proof {
                lemma_first_member(rows, key@, i as int);
            }
            let old_entry = members.remove(i);
            proof {
                assert(rows[i as int] == (old_entry.0@, old_entry.1@));
            }
            match old_entry.1 {
                Json::Object(servers) => {
                    let servers = without_member(servers, SERVER_NAME);
                    let updated = Json::Object(servers);
                    members.insert(i, (key.to_owned(), updated));
                    proof {
                        assert(member_rows(members@) =~= rows.update(i as int, (key@, updated@)));
                    }
                },
                other => {
                    members.insert(i, (key.to_owned(), other));
                    proof {
                        assert(member_rows(members@) =~= rows);
                    }
                },
            }
            (Json::Object(members), removed)
        },
    }
}

/// What a user is told of a configuration that is left as it is.
pub open spec fn config_error_text(e: ConfigError, key: Seq<char>, path: Seq<char>) -> Seq<char> {
    match e {
        ConfigError::RootNotObject => path + " does not contain a JSON object at its root"@,
        ConfigError::KeyNotObject => "'"@ + key + "' in "@ + path + " is not an object"@,
    }
}

impl ConfigError {
    /// What a user is told of the error.
    pub fn message(&self, key: &str, path: &str) -> (res: String)
        ensures
            res@ == config_error_text(*self, key@, path@),
    {
        match self {
            ConfigError::RootNotObject => {
                let mut res = path.to_owned();
                res.append(" does not contain a JSON object at its root");
                res
            },
            ConfigError::KeyNotObject => {
                let mut res = "'".to_owned();
                res.append(key);
                res.append("' in ");
                res.append(path);
                res.append(" is not an object");
                res
            },
        }
    }
}

/// What the configuration file at `path` holds: nothing where there is no file,
/// or why it cannot be used.
pub open spec fn loaded(text: Option<Seq<char>>, path: Seq<char>) -> Result<JsonView, Seq<char>> {
    match text {
        None => Ok(empty_object()),
        Some(t) => loaded_value(parsed_json(t), path),
    }
}

/// What a file that was read as JSON holds, or why it cannot be used.
pub open spec fn loaded_value(parsed: Result<JsonView, Seq<char>>, path: Seq<char>) -> Result<
    JsonView,
    Seq<char>,
> {
    match parsed {
        Err(e) => Err("Failed to parse existing JSON at "@ + path + ": "@ + e),
        Ok(v) => if v is Object {
            Ok(v)
        } else {
            Err(path + " does not contain a JSON object at its root"@)
        },
    }
}

/// What a file that was read as JSON holds, or why it cannot be used.
pub fn check_root(parsed: Result<Json, String>, path: &str) -> (res: Result<Json, String>)
    ensures
        parse_value(res) == loaded_value(parse_value(parsed), path@),
{
    match parsed {
        Err(e) => {
            let mut message = "Failed to parse existing JSON at ".to_owned();
            message.append(path);
            message.append(": ");
            message.append(e.as_str());
            Err(message)
        },
        Ok(Json::Object(members)) => Ok(Json::Object(members)),
        Ok(_) => Err(ConfigError::RootNotObject.message("", path)),
    }
}

/// What the configuration file at `path` holds: nothing where there is no file,
/// or why it cannot be used.
pub fn load_json_object(text: Option<&str>, path: &str) -> (res: Result<Json, String>)
    ensures
        parse_value(res) == loaded(str_text(text), path@),
{
    match text {
        None => Ok(Json::object()),
        Some(t) => check_root(parse_json(t), path),
    }
}

/// The text of the configuration file at `path` once the server is registered,
/// or why it is left as it is.
pub open spec fn installed_text(
    text: Option<Seq<char>>,
    path: Seq<char>,
    key: Seq<char>,
    entry: JsonView,
) -> Result<Seq<char>, Seq<char>> {
    match loaded(text, path) {
        Err(e) => Err(e),
        Ok(root) => match installed(root, key, entry) {
            Err(e) => Err(config_error_text(e, key, path)),
            Ok(new) => pretty_json(new),
        },
    }
}

/// The text of the configuration file at `path` once the server is registered,
/// or why it is left as it is.
pub fn install_config(text: Option<&str>, path: &str, key: &str, entry: Json) -> (res: Result<
    String,
    String,
>)
    ensures
        print_value(res) == installed_text(str_text(text), path@, key@, entry@),
{
    match load_json_object(text, path) {
        Err(e) => Err(e),
        Ok(root) => match install(root, key, entry) {
            Err(e) => Err(e.message(key, path)),
            Ok(new) => print_json(new),
        },
    }
}

/// The text of the configuration file at `path` once the server is taken out,
/// none where it was not there, or why the file cannot be used.
pub open spec fn uninstalled_text(
    text: Option<Seq<char>>,
    path: Seq<char>,
    key: Seq<char>,
) -> Result<Option<Seq<char>>, Seq<char>> {
    match loaded(text, path) {
        Err(e) => Err(e),
        Ok(root) => if is_installed(root, key) {
            match pretty_json(uninstalled(root, key)) {
                Ok(new) => Ok(Some(new)),
                Err(e) => Err(e),
            }
        } else {
            Ok(None)
        },
    }
}

/// The value of a text that may be left as it is.
pub open spec fn rewrite_value(res: Result<Option<String>, String>) -> Result<
    Option<Seq<char>>,
    Seq<char>,
> {
    match res {
        Ok(new) => Ok(opt_text(new)),
        Err(message) => Err(message@),
    }
}

/// The text of the configuration file at `path` once the server is taken out,
/// none where it was not there, or why the file cannot be used.
pub fn uninstall_config(text: Option<&str>, path: &str, key: &str) -> (res: Result<
    Option<String>,
    String,
>)
    ensures
        rewrite_value(res) == uninstalled_text(str_text(text), path@, key@),
{
    match load_json_object(text, path) {
        Err(e) => Err(e),
        Ok(root) => {
            let (new, removed) = uninstall(root, key);
            if removed {
                match print_json(new) {
                    Ok(text) => Ok(Some(text)),
                    Err(e) => Err(e),
                }
            } else {
                Ok(None)
            }
        },
    }
}

/// What a user is told of a registration.
pub fn install_message(path: &str) -> (res: String)
    ensures
        res@ == "Installed memdag MCP server into "@ + path@,
{
    let mut res = "Installed memdag MCP server into ".to_owned();
    res.append(path);
    res
}

/// What a user is told of the end of a registration.
pub fn uninstall_message(removed: bool, path: &str) -> (res: String)
    ensures
        res@ == (if removed {
            "Removed memdag MCP server entry from "@
        } else {
            "No memdag MCP server entry found in "@
        }) + path@,
{
    let mut res = if removed {
        "Removed memdag MCP server entry from ".to_owned()
    } else {
        "No memdag MCP server entry found in ".to_owned()
    };
    res.append(path);
    res
}

/// A directory whose files do not last: downloads, temporary files, builds.
pub open spec fn is_passing_dir(name: Seq<char>) -> bool {
    let n = lowercase(name);
    n == "downloads"@ || n == "tmp"@ || n == "temp"@ || n == "target"@ || n == "build"@
}

/// A path through a directory whose files do not last.
pub open spec fn is_passing(dirs: Seq<Seq<char>>) -> bool {
    exists|i: int| 0 <= i < dirs.len() && is_passing_dir(#[trigger] dirs[i])
}

/// What a user is warned of who registers the program `exe`.
pub open spec fn install_warning_text(
    exe: Seq<char>,
    dirs: Seq<Seq<char>>,
    dir: Seq<char>,
    search_path: Seq<Seq<char>>,
) -> Option<Seq<char>> {
    if is_passing(dirs) {
        Some(
            "Warning: "@ + exe
                + " lies in a download, temporary or build directory. Moving or deleting it breaks the registered MCP entry."@,
        )
    } else if !search_path.contains(dir) {
        Some(
            "Warning: "@ + exe
                + " is not on PATH. Moving or deleting it breaks the registered MCP entry."@,
        )
    } else {
        None
    }
}

/// Whether a directory is one whose files do not last.
fn names_passing_dir(name: &str) -> (res: bool)
    ensures
        res == is_passing_dir(name@),
{
    let n = to_lowercase(name);
    let n = n.as_str();
    same_text(n, "downloads") || same_text(n, "tmp") || same_text(n, "temp") || same_text(
        n,
        "target",
    ) || same_text(n, "build")
}

/// What a user is warned of who registers the program `exe`: `dirs` are the
/// directories that lead to it, `dir` is the last of them as a path, and
/// `search_path` holds the paths where the system looks for programs.
pub fn install_warning(
    exe: &str,
    dirs: &Vec<String>,
    dir: &String,
    search_path: &Vec<String>,
) -> (res: Option<String>)
    ensures
        match res {
            Some(text) => install_warning_text(exe@, texts(dirs@), dir@, texts(search_path@))
                == Some(text@),
            None => install_warning_text(exe@, texts(dirs@), dir@, texts(search_path@)) is None,
        },
{
    let mut i: usize = 0;
    while i < dirs.len()
        invariant
            i <= dirs@.len(),
            forall|k: int| 0 <= k < i ==> !is_passing_dir(#[trigger] texts(dirs@)[k]),
        decreases dirs@.len() - i,
    {
        proof {
            assert(texts(dirs@)[i as int] == dirs@[i as int]@);
        }
        if names_passing_dir(dirs[i].as_str()) {
            proof {
                assert(is_passing_dir(texts(dirs@)[i as int]));
            }
            let mut res = "Warning: ".to_owned();
            res.append(exe);
            res.append(
                " lies in a download, temporary or build directory. Moving or deleting it breaks the registered MCP entry.",
            );
            return Some(res);
        }
        i += 1;
    }
    let mut i: usize = 0;
    while i < search_path.len()
        invariant
            i <= search_path@.len(),
            !is_passing(texts(dirs@)),
            forall|k: int| 0 <= k < i ==> #[trigger] texts(search_path@)[k] != dir@,
        decreases search_path@.len() - i,
    {
        proof {
            assert(texts(search_path@)[i as int] == search_path@[i as int]@);
        }
        if search_path[i] == *dir {
            proof {
                assert(texts(search_path@).contains(dir@));
            }
            return None;
        }
        i += 1;
    }
    let mut res = "Warning: ".to_owned();
    res.append(exe);
    res.append(" is not on PATH. Moving or deleting it breaks the registered MCP entry.");
    Some(res)
}

/// A key that was put is there, with its value.
pub proof fn lemma_put_member(
    members: Seq<(Seq<char>, JsonView)>,
    key: Seq<char>,
    value: JsonView,
    other: Seq<char>,
)
    ensures
        member(put_member(members, key, value), key) == Some(value),
        other != key ==> member(put_member(members, key, value), other) == member(members, other),
    decreases members.len(),
{
    let res = put_member(members, key, value);
    if members.len() == 0 {
        assert(res.drop_first() =~= Seq::empty());
        assert(member(res.drop_first(), other) is None);
    } else if members[0].0 == key {
        assert(res.drop_first() =~= members.drop_first());
        assert(res[0].0 == key);
    } else {
        assert(res[0] == members[0]);
        lemma_put_member(members.drop_first(), key, value, other);
        assert(res.drop_first() =~= put_member(members.drop_first(), key, value));
    }
}

/// A key that was dropped is gone; the others stay.
pub proof fn lemma_drop_member(
    members: Seq<(Seq<char>, JsonView)>,
    key: Seq<char>,
    other: Seq<char>,
)
    ensures
        member(drop_member(members, key), key) is None,
        other != key ==> member(drop_member(members, key), other) == member(members, other),
    decreases members.len(),
{
    let keep = |m: (Seq<char>, JsonView)| is_other(m, key);
    if members.len() == 0 {
        assert(drop_member(members, key) =~= members);
    } else {
        let rest = members.drop_first();
        lemma_drop_member(rest, key, other);
        assert(members =~= seq![members[0]] + rest);
        lemma_filter_front(members[0], rest, keep);
        assert(drop_member(rest, key) == rest.filter(keep));
        assert(drop_member(members, key) == (seq![members[0]] + rest).filter(keep));
        if members[0].0 != key {
            assert(keep(members[0]));
            assert((seq![members[0]] + rest.filter(keep)).drop_first() =~= rest.filter(keep));
        } else {
            assert(!keep(members[0]));
        }
    }
}

/// Registering registers, changes no other key of the file and no other server,
/// and is refused only where there is no object to write to.
pub proof fn law_install(root: JsonView, key: Seq<char>, entry: JsonView, other: Seq<char>)
    ensures
        match installed(root, key, entry) {
            Ok(new) => {
                &&& is_installed(new, key)
                &&& new.get(key)->0.get(SERVER_NAME@) == Some(entry)
                &&& other != key ==> new.get(other) == root.get(other)
                &&& root.get(key) is Some && other != SERVER_NAME@ ==> new.get(key)->0.get(other)
                    == root.get(key)->0.get(other)
            },
            Err(e) => {
                &&& e == ConfigError::RootNotObject <==> !(root is Object)
                &&& e == ConfigError::KeyNotObject <==> root.get(key) is Some && !(root.get(
                    key,
                )->0 is Object)
            },
        },
        installed(root, key, entry) is Ok <==> root is Object && (root.get(key) is None
            || root.get(key)->0 is Object),
{
    if let JsonView::Object(members) = root {
        match member(members, key) {
            None => {
                let servers = empty_object().with(SERVER_NAME@, entry);
                lemma_put_member(members, key, servers, other);
                assert(servers->Object_0[0] == (SERVER_NAME@, entry));
            },
            Some(JsonView::Object(servers)) => {
                let new = JsonView::Object(put_member(servers, SERVER_NAME@, entry));
                lemma_put_member(members, key, new, other);
                lemma_put_member(servers, SERVER_NAME@, entry, other);
            },
            Some(_) => {},
        }
    }
}

/// Taking the server out leaves no entry of it, changes no other key of the
/// file and no other server.
pub proof fn law_uninstall(root: JsonView, key: Seq<char>, other: Seq<char>)
    ensures
        !is_installed(uninstalled(root, key), key),
        other != key ==> uninstalled(root, key).get(other) == root.get(other),
        root.get(key) is Some && other != SERVER_NAME@ ==> uninstalled(root, key).get(key)->0.get(
            other,
        ) == root.get(key)->0.get(other),
{
    if let JsonView::Object(members) = root {
        if let Some(JsonView::Object(servers)) = member(members, key) {
            let new = JsonView::Object(drop_member(servers, SERVER_NAME@));
            lemma_put_member(members, key, new, other);
            lemma_drop_member(servers, SERVER_NAME@, other);
        }
    }
}

proof fn lemma_put_twice(
    members: Seq<(Seq<char>, JsonView)>,
    key: Seq<char>,
    a: JsonView,
    b: JsonView,
)
    ensures
        put_member(put_member(members, key, a), key, b) == put_member(members, key, b),
    decreases members.len(),
{
    let once = put_member(members, key, a);
    if members.len() == 0 {
        assert(once.drop_first() =~= Seq::empty());
        assert(seq![(key, b)] + once.drop_first() =~= seq![(key, b)]);
    } else if members[0].0 == key {
        assert(once.drop_first() =~= members.drop_first());
    } else {
        lemma_put_twice(members.drop_first(), key, a, b);
        assert(once.drop_first() =~= put_member(members.drop_first(), key, a));
    }
}

proof fn lemma_drop_after_put(
    members: Seq<(Seq<char>, JsonView)>,
    key: Seq<char>,
    value: JsonView,
)
    ensures
        drop_member(put_member(members, key, value), key) == drop_member(members, key),
    decreases members.len(),
{
    let keep = |m: (Seq<char>, JsonView)| is_other(m, key);
    let none = Seq::<(Seq<char>, JsonView)>::empty();
    if members.len() == 0 {
        assert(members =~= none);
        assert(seq![(key, value)] =~= seq![(key, value)] + none);
        lemma_filter_front((key, value), none, keep);
    } else {
        let rest = members.drop_first();
        assert(members =~= seq![members[0]] + rest);
        lemma_filter_front(members[0], rest, keep);
        if members[0].0 == key {
            lemma_filter_front((key, value), rest, keep);
        } else {
            lemma_drop_after_put(rest, key, value);
            lemma_filter_front(members[0], put_member(rest, key, value), keep);
        }
    }
}

/// Registering again only replaces the entry.
pub proof fn law_install_again(root: JsonView, key: Seq<char>, first: JsonView, again: JsonView)
    requires
        installed(root, key, first) is Ok,
    ensures
        installed(installed(root, key, first)->Ok_0, key, again) == installed(root, key, again),
{
    let members = root->Object_0;
    match member(members, key) {
        None => {
            let a = empty_object().with(SERVER_NAME@, first);
            let b = empty_object().with(SERVER_NAME@, again);
            lemma_put_member(members, key, a, key);
            let none = Seq::<(Seq<char>, JsonView)>::empty();
            let servers = none.push((SERVER_NAME@, first));
            assert(servers[0].0 == SERVER_NAME@);
            assert(seq![(SERVER_NAME@, again)] + servers.drop_first() =~= none.push(
                (SERVER_NAME@, again),
            ));
            assert(put_member(servers, SERVER_NAME@, again) == b->Object_0);
            lemma_put_twice(members, key, a, b);
        },
        Some(JsonView::Object(servers)) => {
            let a = JsonView::Object(put_member(servers, SERVER_NAME@, first));
            let b = JsonView::Object(put_member(servers, SERVER_NAME@, again));
            lemma_put_member(members, key, a, key);
            lemma_put_twice(servers, SERVER_NAME@, first, again);
            lemma_put_twice(members, key, a, b);
        },
        Some(_) => {},
    }
}

/// Registering and taking the server out again gives what taking it out gives,
/// or, where nothing stood under the key, leaves the key with no servers.
pub proof fn law_install_uninstall(root: JsonView, key: Seq<char>, entry: JsonView)
    requires
        installed(root, key, entry) is Ok,
    ensures
        uninstalled(installed(root, key, entry)->Ok_0, key) == if root.get(key) is Some {
            uninstalled(root, key)
        } else {
            JsonView::Object(put_member(root->Object_0, key, empty_object()))
        },
{
    let members = root->Object_0;
    match member(members, key) {
        None => {
            let a = empty_object().with(SERVER_NAME@, entry);
            lemma_put_member(members, key, a, key);
            let none = Seq::<(Seq<char>, JsonView)>::empty();
            lemma_drop_after_put(none, SERVER_NAME@, entry);
            assert(put_member(none, SERVER_NAME@, entry) =~= a->Object_0);
            assert(drop_member(none, SERVER_NAME@) =~= none);
            lemma_put_twice(members, key, a, empty_object());
        },
        Some(JsonView::Object(servers)) => {
            let a = JsonView::Object(put_member(servers, SERVER_NAME@, entry));
            let b = JsonView::Object(drop_member(servers, SERVER_NAME@));
            lemma_put_member(members, key, a, key);
            lemma_drop_after_put(servers, SERVER_NAME@, entry);
            lemma_put_twice(members, key, a, b);
        },
        Some(_) => {},
    }
}

/// The server counts as registered exactly where an object under the key has an
/// entry of its name.
pub proof fn law_is_installed(root: JsonView, key: Seq<char>)
    ensures
        is_installed(root, key) <==> (root.get(key) matches Some(servers) && servers.get("memdag"@)
            is Some),
{
}

/// A file that cannot be read as an object is never written, and one without the
/// server is not written by taking the server out. A file that is written holds
/// the server, or no longer holds it, with every other key as it was.
pub proof fn law_config_file(
    text: Option<Seq<char>>,
    path: Seq<char>,
    key: Seq<char>,
    entry: JsonView,
    other: Seq<char>,
)
    ensures
        loaded(text, path) is Err ==> installed_text(text, path, key, entry) is Err
            && uninstalled_text(text, path, key) is Err,
        loaded(text, path) matches Ok(root) ==> {
            &&& root is Object
            &&& installed_text(text, path, key, entry) is Ok ==> exists|new: JsonView|
                {
                    &&& #[trigger] pretty_json(new) == installed_text(text, path, key, entry)
                    &&& is_installed(new, key)
                    &&& other != key ==> new.get(other) == root.get(other)
                }
            &&& uninstalled_text(text, path, key) matches Ok(Some(written)) ==> is_installed(
                root,
                key,
            ) && exists|new: JsonView|
                {
                    &&& #[trigger] pretty_json(new) == Ok::<Seq<char>, Seq<char>>(written)
                    &&& !is_installed(new, key)
                    &&& other != key ==> new.get(other) == root.get(other)
                }
            &&& !is_installed(root, key) ==> uninstalled_text(text, path, key) == Ok::<
                Option<Seq<char>>,
                Seq<char>,
            >(None)
        },
{
    if let Ok(root) = loaded(text, path) {
        law_install(root, key, entry, other);
        law_uninstall(root, key, other);
        if let Ok(new) = installed(root, key, entry) {
            assert(pretty_json(new) == installed_text(text, path, key, entry));
        }
        let new = uninstalled(root, key);
        assert(pretty_json(new) == pretty_json(new));
    }
}

} // verus!
