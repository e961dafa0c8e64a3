//! The commands: which settings they run with, when they are refused, and what they print.

use crate::config::{Config, ConnectCfg, PublishCfg};
use crate::error::CoreError;
use crate::identity::Identity;
use crate::name::{keyid_len_objection, keyid_of, vanity_objection, Name, NameModel};
use crate::text::{chars_of, decimal, decimal_of, texts};
use crate::tunnel::NetOpts;
use crate::{MAX_KEYID_LEN, MIN_KEYID_LEN};
use vstd::prelude::*;
use vstd::string::*;

verus! {

/// Why a command is refused.
#[derive(Debug, Clone, Copy, PartialEq, Eq, Structural)]
pub enum CliError {
    /// The keyid length is out of range.
    KeyidLen(usize),
    /// There is an identity already.
    IdentityExists,
    /// The search for a key was stopped.
    Aborted,
}

impl CliError {
    /// The words of the error.
    pub open spec fn words(self) -> Seq<char> {
        match self {
            CliError::KeyidLen(len) => "keyid_len must be in "@ + decimal(MIN_KEYID_LEN as nat)
                + "..="@ + decimal(MAX_KEYID_LEN as nat) + ", got "@ + decimal(len as nat),
            CliError::IdentityExists =>
                "an identity already exists for this profile (use --force to overwrite)"@,
            CliError::Aborted => "vanity grinding aborted"@,
        }
    }

    /// Puts the error in words.
    pub fn message(&self) -> (text: String)
        ensures
            text@ == self.words(),
    {
        match self {
            CliError::KeyidLen(len) => "keyid_len must be in ".to_string().concat(
                decimal_of(MIN_KEYID_LEN as u64).as_str(),
            ).concat("..=").concat(decimal_of(MAX_KEYID_LEN as u64).as_str()).concat(
                ", got ",
            ).concat(decimal_of(*len as u64).as_str()),
            CliError::IdentityExists =>
                "an identity already exists for this profile (use --force to overwrite)".to_string(),
            CliError::Aborted => "vanity grinding aborted".to_string(),
        }
    }
}

/// Checks a keyid length.
pub fn check_keyid_len(len: usize) -> (r: Result<(), CliError>)
    ensures
        r == (if MIN_KEYID_LEN <= len <= MAX_KEYID_LEN {
            Ok(())
        } else {
            Err(CliError::KeyidLen(len))
        }),
{
    if MIN_KEYID_LEN <= len && len <= MAX_KEYID_LEN {
        Ok(())
    } else {
        Err(CliError::KeyidLen(len))
    }
}

// ---------------------------------------------------------------------------
// init
// ---------------------------------------------------------------------------

/// How a new identity is made.
pub enum InitPlan {
    /// From a random key.
    Generate,
    /// From a key whose keyid begins with this.
    Grind(String),
}

/// Decides how a new identity is made, or that none is.
pub fn init_plan(
    keyid_len: usize,
    present: bool,
    force: bool,
    vanity_prefix: Option<String>,
) -> (r: Result<InitPlan, CliError>)
    ensures
        if !(MIN_KEYID_LEN <= keyid_len <= MAX_KEYID_LEN) {
            r == Err::<InitPlan, CliError>(CliError::KeyidLen(keyid_len))
        } else if present && !force {
            r == Err::<InitPlan, CliError>(CliError::IdentityExists)
        } else {
            r == Ok::<InitPlan, CliError>(
                match vanity_prefix {
                    Some(prefix) => InitPlan::Grind(prefix),
                    None => InitPlan::Generate,
                },
            )
        },
{
    match check_keyid_len(keyid_len) {
        Ok(_) => {},
        Err(e) => return Err(e),
    }
    if present && !force {
        return Err(CliError::IdentityExists);
    }
    match vanity_prefix {
        Some(prefix) => Ok(InitPlan::Grind(prefix)),
        None => Ok(InitPlan::Generate),
    }
}

/// The identity that a search found, if it was not stopped.
pub fn found_identity(found: Option<Identity>) -> (r: Result<Identity, CliError>)
    ensures
        match found {
            Some(id) => r == Ok::<Identity, CliError>(id),
            None => r == Err::<Identity, CliError>(CliError::Aborted),
        },
{
    match found {
        Some(id) => Ok(id),
        None => Err(CliError::Aborted),
    }
}

/// The text with each backslash doubled.
pub open spec fn doubled_backslashes(s: Seq<char>) -> Seq<char>
    decreases s.len(),
{
    if s.len() == 0 {
        Seq::empty()
    } else if s.last() == '\\' {
        doubled_backslashes(s.drop_last()).push('\\').push('\\')
    } else {
        doubled_backslashes(s.drop_last()).push(s.last())
    }
}

/// Doubles each backslash.
pub fn double_backslashes(s: &str) -> (out: String)
    ensures
        out@ == doubled_backslashes(s@),
{
    let chars = chars_of(s);
    let mut out = String::new();
    let mut i: usize = 0;
    assert(s@.take(0) =~= Seq::empty());
    while i < chars.len()
        invariant
            chars@ == s@,
            i <= chars@.len(),
            out@ == doubled_backslashes(s@.take(i as int)),
        decreases chars@.len() - i,
    {
        assert(s@.take(i + 1).drop_last() =~= s@.take(i as int));
        assert(s@.take(i + 1).last() == s@[i as int]);
        if chars[i] == '\\' {
            out.push('\\');
            out.push('\\');
        } else {
            out.push(chars[i]);
        }
        i += 1;
    }
    assert(s@.take(s@.len() as int) =~= s@);
    out
}

/// A new identity as JSON.
pub open spec fn init_json_text(name: NameModel, keyid_len: nat, location: Seq<char>) -> Seq<char> {
    "{\"keyid\":\""@ + name.keyid + "\",\"keyid_len\":"@ + decimal(keyid_len) + ",\"name\":\""@
        + name.text() + "\",\"key_storage\":\""@ + doubled_backslashes(location) + "\"}"@
}

/// Describes a new identity as JSON.
pub fn init_json(name: &Name, keyid_len: usize, location: &str) -> (out: String)
    ensures
        out@ == init_json_text(name@, keyid_len as nat, location@),
{
    "{\"keyid\":\"".to_string().concat(name.keyid.as_str()).concat("\",\"keyid_len\":").concat(
        decimal_of(keyid_len as u64).as_str(),
    ).concat(",\"name\":\"").concat(name.to_string().as_str()).concat(
        "\",\"key_storage\":\"",
    ).concat(double_backslashes(location).as_str()).concat("\"}")
}

/// A new identity for people.
pub open spec fn init_lines(name: NameModel, location: Seq<char>) -> Seq<Seq<char>> {
    seq![
        "Generated new identity."@,
        "  key stored in : "@ + location,
        "  keyid         : "@ + name.keyid,
        "  address       : "@ + name.text(),
        "\nKeep the key file secret — it *is* your identity."@,
    ]
}

/// Describes a new identity for people.
pub fn init_report(name: &Name, location: &str) -> (lines: Vec<String>)
    ensures
        texts(lines@) == init_lines(name@, location@),
{
    let mut lines: Vec<String> = Vec::new();
    lines.push("Generated new identity.".to_string());
    lines.push("  key stored in : ".to_string().concat(location));
    lines.push("  keyid         : ".to_string().concat(name.keyid.as_str()));
    lines.push("  address       : ".to_string().concat(name.to_string().as_str()));
    lines.push("\nKeep the key file secret — it *is* your identity.".to_string());
    assert(texts(lines@) =~= init_lines(name@, location@));
    lines
}

// ---------------------------------------------------------------------------
// name and forget
// ---------------------------------------------------------------------------

/// The keyid length with which a name is shown: the one asked for, which has to be in range, or
/// else the one that was saved.
pub fn shown_keyid_len(asked: Option<usize>, saved: usize) -> (r: Result<usize, CliError>)
    ensures
        match asked {
            Some(n) => r == (if MIN_KEYID_LEN <= n <= MAX_KEYID_LEN {
                Ok(n)
            } else {
                Err(CliError::KeyidLen(n))
            }),
            None => r == Ok::<usize, CliError>(saved),
        },
{
    match asked {
        Some(n) => match check_keyid_len(n) {
            Ok(_) => Ok(n),
            Err(e) => Err(e),
        },
        None => Ok(saved),
    }
}

/// A name as JSON.
pub open spec fn name_json_text(name: NameModel, keyid_len: nat) -> Seq<char> {
    "{\"keyid\":\""@ + name.keyid + "\",\"keyid_len\":"@ + decimal(keyid_len) + ",\"vanity\":\""@
        + name.vanity + "\",\"name\":\""@ + name.text() + "\"}"@
}

/// The line that shows an identity's name, as JSON or as it is typed.
pub fn name_line(identity: &Identity, vanity: &str, keyid_len: usize, json: bool) -> (r: Result<
    String,
    CoreError,
>)
    ensures
        match r {
            Ok(line) => {
                let name = NameModel {
                    vanity: vanity@,
                    keyid: keyid_of(identity.public(), keyid_len as nat),
                };
                &&& keyid_len_objection(keyid_len as nat) is None
                &&& vanity_objection(vanity@) is None
                &&& line@ == (if json {
                    name_json_text(name, keyid_len as nat)
                } else {
                    name.text()
                })
            },
            Err(e) => if keyid_len_objection(keyid_len as nat) is Some {
                keyid_len_objection(keyid_len as nat) == Some(e)
            } else {
                vanity_objection(vanity@) == Some(e)
            },
        },
{
    let name = match identity.name(vanity, keyid_len) {
        Ok(name) => name,
        Err(e) => return Err(e),
    };
    if json {
        Ok(
            "{\"keyid\":\"".to_string().concat(name.keyid.as_str()).concat(
                "\",\"keyid_len\":",
            ).concat(decimal_of(keyid_len as u64).as_str()).concat(",\"vanity\":\"").concat(
                name.vanity.as_str(),
            ).concat("\",\"name\":\"").concat(name.to_string().as_str()).concat("\"}"),
        )
    } else {
        Ok(name.to_string())
    }
}

/// What is said after an identity was removed.
pub fn forget_line(what: &str) -> (line: String)
    ensures
        line@ == "Removed identity ("@ + what@ + ")."@,
{
    "Removed identity (".to_string().concat(what).concat(").")
}

// ---------------------------------------------------------------------------
// Settings
// ---------------------------------------------------------------------------

/// What shapes the node, from the settings and from its role.
pub fn net_opts<'a>(cfg: &'a Config, reserve: bool, relay_server: bool) -> (opts: NetOpts<'a>)
    ensures
        opts.bootstrap@ == cfg.network.bootstrap@,
        opts.relays@ == cfg.network.relays@,
        opts.use_ipfs_dht == cfg.network.use_ipfs_dht,
        opts.enable_mdns == cfg.network.mdns,
        opts.reserve == reserve,
        opts.relay_server == relay_server,
{
    NetOpts {
        bootstrap: cfg.network.bootstrap.as_slice(),
        relays: cfg.network.relays.as_slice(),
        use_ipfs_dht: cfg.network.use_ipfs_dht,
        enable_mdns: cfg.network.mdns,
        reserve,
        relay_server,
    }
}

/// What to publish, and for how many.
pub struct PublishSettings {
    pub target: String,
    pub vanity: String,
    pub max_conns: usize,
    pub max_conn_rate: u32,
}

/// The argument of the command line if there is one, or else what the file says.
pub open spec fn overridden(arg: Option<String>, file: Seq<char>) -> Seq<char> {
    match arg {
        Some(text) => text@,
        None => file,
    }
}

/// The argument if there is one, or else what the file says.
fn choose_text(arg: Option<String>, file: &str) -> (text: String)
    ensures
        text@ == overridden(arg, file@),
{
    match arg {
        Some(text) => text,
        None => file.to_string(),
    }
}

/// What to publish: arguments of the command line override the file.
pub fn publish_settings(
    target: Option<String>,
    vanity: Option<String>,
    max_conns: Option<usize>,
    cfg: &PublishCfg,
) -> (settings: PublishSettings)
    ensures
        settings.target@ == overridden(target, cfg.target@),
        settings.vanity@ == overridden(vanity, cfg.vanity@),
        settings.max_conns == (match max_conns {
            Some(n) => n,
            None => cfg.max_conns,
        }),
        settings.max_conn_rate == cfg.max_conn_rate,
{
    PublishSettings {
        target: choose_text(target, cfg.target.as_str()),
        vanity: choose_text(vanity, cfg.vanity.as_str()),
        max_conns: match max_conns {
            Some(n) => n,
            None => cfg.max_conns,
        },
        max_conn_rate: cfg.max_conn_rate,
    }
}

/// Where the connecting side listens.
pub fn connect_listen(listen: Option<String>, cfg: &ConnectCfg) -> (text: String)
    ensures
        text@ == overridden(listen, cfg.listen@),
{
    choose_text(listen, cfg.listen.as_str())
}

// ---------------------------------------------------------------------------
// Laws
// ---------------------------------------------------------------------------

/// A backslash is written twice and any other character once, each at its place.
pub proof fn law_backslashes_are_doubled(a: Seq<char>, b: Seq<char>, c: char)
    ensures
        doubled_backslashes(seq!['\\']) == seq!['\\', '\\'],
        c != '\\' ==> doubled_backslashes(seq![c]) == seq![c],
        doubled_backslashes(a + b) == doubled_backslashes(a) + doubled_backslashes(b),
    decreases b.len(),
{
    assert(seq![c].drop_last() =~= Seq::empty());
    assert(seq!['\\'].drop_last() =~= Seq::empty());
    assert(doubled_backslashes(Seq::empty()) =~= Seq::empty());
    assert(doubled_backslashes(seq!['\\']) =~= seq!['\\', '\\']);
    if c != '\\' {
        assert(doubled_backslashes(seq![c]) =~= seq![c]);
    }
    if b.len() == 0 {
        assert(a + b =~= a);
        assert(doubled_backslashes(a) + doubled_backslashes(b) =~= doubled_backslashes(a));
    } else {
        law_backslashes_are_doubled(a, b.drop_last(), c);
        assert((a + b).drop_last() =~= a + b.drop_last());
        assert(doubled_backslashes(a + b) =~= doubled_backslashes(a) + doubled_backslashes(b));
    }
}

/// An argument counts whatever the file says, and the file counts where there is none.
pub proof fn law_arguments_override_the_file(arg: String, file: Seq<char>)
    ensures
        overridden(Some(arg), file) == arg@,
        overridden(None, file) == file,
{
}

/// A name is shown with its keyid, the length of it, the vanity label, and as it is typed.
pub proof fn law_names_in_json(name: NameModel, keyid_len: nat, location: Seq<char>)
    ensures
        name_json_text(name, keyid_len) == "{\"keyid\":\""@ + name.keyid + "\",\"keyid_len\":"@
            + decimal(keyid_len) + ",\"vanity\":\""@ + name.vanity + "\",\"name\":\""@
            + name.text() + "\"}"@,
        init_json_text(name, keyid_len, location) == "{\"keyid\":\""@ + name.keyid
            + "\",\"keyid_len\":"@ + decimal(keyid_len) + ",\"name\":\""@ + name.text()
            + "\",\"key_storage\":\""@ + doubled_backslashes(location) + "\"}"@,
        init_lines(name, location).len() == 5,
        init_lines(name, location)[1] == "  key stored in : "@ + location,
        init_lines(name, location)[2] == "  keyid         : "@ + name.keyid,
        init_lines(name, location)[3] == "  address       : "@ + name.text(),
{
}

/// A command is refused in these words.
pub proof fn law_words_of_refused_commands(len: usize)
    ensures
        CliError::KeyidLen(len).words() == "keyid_len must be in "@ + decimal(16) + "..="@ + decimal(
            52,
        ) + ", got "@ + decimal(len as nat),
        CliError::IdentityExists.words()
            == "an identity already exists for this profile (use --force to overwrite)"@,
        CliError::Aborted.words() == "vanity grinding aborted"@,
{
}

} // verus!
