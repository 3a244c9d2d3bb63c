use vstd::prelude::*;
use vstd::string::*;

use crate::text::{is_blank, is_blank_str, lowercase, lowercase_of};

verus! {

#[verifier::external_type_specification]
#[verifier::external_body]
pub struct ExIoError(std::io::Error);

#[verifier::external_type_specification]
#[verifier::external_body]
pub struct ExTomlDeError(toml::de::Error);

/// The example configuration written when none exists yet.
pub const DEFAULT_CONFIG_TEMPLATE: &'static str = r#"# ssh-quick-connect configuration
# Add as many machines as you need.

[[connections]]
id = "dev"
name = "dev-server"
host = "192.168.1.10"
user = "dev"
port = 22
identity_file = "~/.ssh/id_ed25519"
options = []

[[connections]]
id = "prod"
name = "prod-jump"
host = "jump.example.com"
user = "ops"
options = ["ServerAliveInterval=30", "ServerAliveCountMax=3"]
"#;

/// The configuration file: the machines one can connect to.
#[derive(Debug, Clone, PartialEq, Eq)]
pub struct AppConfig {
    pub connections: Vec<Connection>,
}

/// One machine of the configuration.
#[derive(Debug, Clone, PartialEq, Eq)]
pub struct Connection {
    pub id: Option<String>,
    pub name: String,
    pub host: String,
    pub user: Option<String>,
    pub port: Option<u16>,
    pub identity_file: Option<String>,
    pub options: Vec<String>,
}

/// A connection as plain text values.
pub struct ConnectionView {
    pub id: Option<Seq<char>>,
    pub name: Seq<char>,
    pub host: Seq<char>,
    pub user: Option<Seq<char>>,
    pub port: Option<u16>,
    pub identity_file: Option<Seq<char>>,
    pub options: Seq<Seq<char>>,
}

impl View for Connection {
    type V = ConnectionView;

    open spec fn view(&self) -> ConnectionView {
        ConnectionView {
            id: self.id.deep_view(),
            name: self.name@,
            host: self.host@,
            user: self.user.deep_view(),
            port: self.port,
            identity_file: self.identity_file.deep_view(),
            options: self.options.deep_view(),
        }
    }
}

/// The connections of a list, each by its view.
pub open spec fn connection_views(cs: Seq<Connection>) -> Seq<ConnectionView> {
    cs.map_values(|c: Connection| c@)
}

/// Why a configuration could not be read or is not acceptable.
#[derive(Debug)]
pub enum ConfigError {
    Io(std::io::Error),
    ParseToml(toml::de::Error),
    Validation(String),
}

impl From<std::io::Error> for ConfigError {
    fn from(value: std::io::Error) -> (r: Self) {
        ConfigError::Io(value)
    }
}

impl vstd::std_specs::convert::FromSpecImpl<std::io::Error> for ConfigError {
    open spec fn obeys_from_spec() -> bool {
        true
    }

    open spec fn from_spec(v: std::io::Error) -> Self {
        ConfigError::Io(v)
    }
}

impl From<toml::de::Error> for ConfigError {
    fn from(value: toml::de::Error) -> (r: Self) {
        ConfigError::ParseToml(value)
    }
}

impl vstd::std_specs::convert::FromSpecImpl<toml::de::Error> for ConfigError {
    open spec fn obeys_from_spec() -> bool {
        true
    }

    open spec fn from_spec(v: toml::de::Error) -> Self {
        ConfigError::ParseToml(v)
    }
}

/// Calls `ToString::to_string` (through `Display`) on a `std::io::Error`. Nothing
/// is claimed of the text: for errors reported by the operating system it is the
/// system's own description, which depends on the machine.
#[verifier::external_body]
fn io_error_text(e: &std::io::Error) -> String {
    e.to_string()
}

/// Calls `ToString::to_string` (through `Display`) on a `toml::de::Error`. Nothing
/// is claimed of the text: the error value is opaque here, so the description
/// (message, position and excerpt of the document) cannot be tied to anything
/// the library can state.
#[verifier::external_body]
fn toml_error_text(e: &toml::de::Error) -> String {
    e.to_string()
}

/// `t` starts with `prefix`.
pub open spec fn starts_with(t: Seq<char>, prefix: Seq<char>) -> bool {
    prefix.len() <= t.len() && t.subrange(0, prefix.len() as int) == prefix
}

/// The message for an error: `prefix` followed by the text of its cause.
pub fn message_with_cause(prefix: &str, cause: &str) -> (r: String)
    ensures
        r@ == prefix@ + cause@,
{
    let mut r = String::from_str(prefix);
    r.append(cause);
    r
}

impl ConfigError {
    /// The text shown to the user for this error: a prefix naming the kind of
    /// error, followed by its cause. For `Io` and `ParseToml` the cause is the
    /// outside error's own description, which is built by `message_with_cause`.
    pub fn to_message(&self) -> (r: String)
        ensures
            match self {
                ConfigError::Io(_) => starts_with(r@, "I/O error: "@),
                ConfigError::ParseToml(_) => starts_with(r@, "Invalid TOML format: "@),
                ConfigError::Validation(m) => r@ == "Invalid configuration: "@ + m@,
            },
    {
        let r = match self {
            ConfigError::Io(e) => message_with_cause("I/O error: ", io_error_text(e).as_str()),
            ConfigError::ParseToml(e) => message_with_cause(
                "Invalid TOML format: ",
                toml_error_text(e).as_str(),
            ),
            ConfigError::Validation(m) => message_with_cause("Invalid configuration: ", m.as_str()),
        };
        proof {
            match self {
                ConfigError::Io(_) => {
                    assert(r@.subrange(0, "I/O error: "@.len() as int) =~= "I/O error: "@);
                },
                ConfigError::ParseToml(_) => {
                    assert(r@.subrange(0, "Invalid TOML format: "@.len() as int)
                        =~= "Invalid TOML format: "@);
                },
                ConfigError::Validation(_) => {},
            }
        }
        r
    }
}

/// Some entry before position `i` of the lower-cased ids is `Some(l)`.
pub open spec fn earlier_id_clash(lids: Seq<Option<Seq<char>>>, i: int, l: Seq<char>) -> bool {
    exists|j: int| 0 <= j < i && #[trigger] lids[j] == Some(l)
}

/// Some entry before position `i` of the lower-cased names is `l`.
pub open spec fn earlier_name_clash(lnames: Seq<Seq<char>>, i: int, l: Seq<char>) -> bool {
    exists|j: int| 0 <= j < i && #[trigger] lnames[j] == l
}

/// Some option of the connection is blank.
pub open spec fn has_blank_option(c: ConnectionView) -> bool {
    exists|k: int| 0 <= k < c.options.len() && is_blank(#[trigger] c.options[k])
}

/// The message of the first check that connection `i` fails, given the
/// connections before it and the lower-cased ids (`lids`) and names (`lnames`)
/// of all connections, or `None` when it passes them all.
pub open spec fn connection_issue(
    cs: Seq<ConnectionView>,
    lids: Seq<Option<Seq<char>>>,
    lnames: Seq<Seq<char>>,
    i: int,
) -> Option<Seq<char>> {
    let c = cs[i];
    if c.id is Some && is_blank(c.id->0) {
        Some("connection id cannot be empty"@)
    } else if c.id is Some && lids[i] is Some && earlier_id_clash(lids, i, lids[i]->0) {
        Some("duplicate connection id '"@ + c.id->0 + "'"@)
    } else if is_blank(c.name) {
        Some("connection name cannot be empty"@)
    } else if is_blank(c.host) {
        Some("connection '"@ + c.name + "' has empty host"@)
    } else if earlier_name_clash(lnames, i, lnames[i]) {
        Some("duplicate connection name '"@ + c.name + "'"@)
    } else if has_blank_option(c) {
        Some("connection '"@ + c.name + "' contains an empty ssh option"@)
    } else {
        None
    }
}

/// The message of the first issue among the first `n` connections, in order.
pub open spec fn first_issue(
    cs: Seq<ConnectionView>,
    lids: Seq<Option<Seq<char>>>,
    lnames: Seq<Seq<char>>,
    n: int,
) -> Option<Seq<char>>
    decreases n,
{
    if n <= 0 {
        None
    } else {
        match first_issue(cs, lids, lnames, n - 1) {
            Some(m) => Some(m),
            None => connection_issue(cs, lids, lnames, n - 1),
        }
    }
}

/// The message a list of connections is rejected with, given the lower-cased ids
/// and names of its connections, or `None` when it is accepted.
pub open spec fn lowered_validation_message(
    cs: Seq<ConnectionView>,
    lids: Seq<Option<Seq<char>>>,
    lnames: Seq<Seq<char>>,
) -> Option<Seq<char>> {
    if cs.len() == 0 {
        Some("connections list must contain at least one entry"@)
    } else {
        first_issue(cs, lids, lnames, cs.len() as int)
    }
}

/// The ids of the connections, lower-cased.
pub open spec fn lowered_ids(cs: Seq<ConnectionView>) -> Seq<Option<Seq<char>>> {
    Seq::new(
        cs.len(),
        |j: int|
            match cs[j].id {
                Some(id) => Some(lowercase(id)),
                None => None,
            },
    )
}

/// The names of the connections, lower-cased.
pub open spec fn lowered_names(cs: Seq<ConnectionView>) -> Seq<Seq<char>> {
    Seq::new(cs.len(), |j: int| lowercase(cs[j].name))
}

/// The message `validate_config` rejects a list of connections with, or `None`
/// when it accepts the list.
pub open spec fn validation_message(cs: Seq<ConnectionView>) -> Option<Seq<char>> {
    lowered_validation_message(cs, lowered_ids(cs), lowered_names(cs))
}

proof fn lemma_first_issue_persists(
    cs: Seq<ConnectionView>,
    lids: Seq<Option<Seq<char>>>,
    lnames: Seq<Seq<char>>,
    i: int,
    n: int,
)
    requires
        0 <= i < n,
        first_issue(cs, lids, lnames, i) is None,
        connection_issue(cs, lids, lnames, i) is Some,
    ensures
        first_issue(cs, lids, lnames, n) == connection_issue(cs, lids, lnames, i),
    decreases n - i,
{
    if n > i + 1 {
        lemma_first_issue_persists(cs, lids, lnames, i, n - 1);
    }
}

fn validation_error(msg: &str) -> (e: ConfigError)
    ensures
        e matches ConfigError::Validation(m) && m@ == msg@,
{
    ConfigError::Validation(String::from_str(msg))
}

fn quoted_message(before: &str, value: &str, after: &str) -> (e: ConfigError)
    ensures
        e matches ConfigError::Validation(m) && m@ == before@ + value@ + after@,
{
    let mut m = String::from_str(before);
    m.append(value);
    m.append(after);
    ConfigError::Validation(m)
}

fn any_blank(options: &Vec<String>) -> (r: bool)
    ensures
        r == exists|k: int| 0 <= k < options@.len() && is_blank(#[trigger] options@[k]@),
{
    let mut k: usize = 0;
    while k < options.len()
        invariant
            k <= options.len(),
            forall|j: int| 0 <= j < k ==> !is_blank(#[trigger] options@[j]@),
        decreases options.len() - k,
    {
        if is_blank_str(options[k].as_str()) {
            return true;
        }
        k = k + 1;
    }
    false
}

/// Checks a configuration, given the lower-cased id (where there is one) and the
/// lower-cased name of each connection: at least one connection; no blank id,
/// name, host or option; no lower-cased id or name that occurs twice. The first
/// failed check, connection by connection, decides the message.
#[verifier::loop_isolation(false)]
pub fn validate_lowered(
    config: &AppConfig,
    lowered_ids: &Vec<Option<String>>,
    lowered_names: &Vec<String>,
) -> (r: Result<(), ConfigError>)
    requires
        lowered_ids.len() == config.connections.len(),
        lowered_names.len() == config.connections.len(),
    ensures
        match lowered_validation_message(
            connection_views(config.connections@),
            lowered_ids.deep_view(),
            lowered_names.deep_view(),
        ) {
            None => r is Ok,
            Some(msg) => r matches Err(ConfigError::Validation(m)) && m@ == msg,
        },
{
    let cs = &config.connections;
    let ghost views = connection_views(cs@);
    let ghost lids = lowered_ids.deep_view();
    let ghost lnames = lowered_names.deep_view();
    if cs.len() == 0 {
        return Err(validation_error("connections list must contain at least one entry"));
    }
    let mut i: usize = 0;
    while i < cs.len()
        invariant
            i <= cs.len(),
            first_issue(views, lids, lnames, i as int) is None,
        decreases cs.len() - i,
    {
        let c = &cs[i];
        assert(views[i as int] == c@);
        match &c.id {
            Some(id) => {
                if is_blank_str(id.as_str()) {
                    proof {
                        lemma_first_issue_persists(views, lids, lnames, i as int, cs.len() as int);
                    }
                    return Err(validation_error("connection id cannot be empty"));
                }
                match &lowered_ids[i] {
                    Some(l) => {
                        assert(lids[i as int] == Some(l@));
                        let mut j: usize = 0;
                        while j < i
                            invariant
                                j <= i,
                                forall|k: int| 0 <= k < j ==> #[trigger] lids[k] != Some(l@),
                            decreases i - j,
                        {
                            assert(lids[j as int] == lowered_ids@[j as int].deep_view());
                            let same = match &lowered_ids[j] {
                                Some(x) => *x == *l,
                                None => false,
                            };
                            if same {
                                assert(lids[j as int] == Some(l@));
                                proof {
                                    lemma_first_issue_persists(
                                        views,
                                        lids,
                                        lnames,
                                        i as int,
                                        cs.len() as int,
                                    );
                                }
                                return Err(
                                    quoted_message("duplicate connection id '", id.as_str(), "'"),
                                );
                            }
                            j = j + 1;
                        }
                        assert(!earlier_id_clash(lids, i as int, l@));
                    },
                    None => {},
                }
            },
            None => {},
        }
        if is_blank_str(c.name.as_str()) {
            proof {
                lemma_first_issue_persists(views, lids, lnames, i as int, cs.len() as int);
            }
            return Err(validation_error("connection name cannot be empty"));
        }
        if is_blank_str(c.host.as_str()) {
            proof {
                lemma_first_issue_persists(views, lids, lnames, i as int, cs.len() as int);
            }
            return Err(quoted_message("connection '", c.name.as_str(), "' has empty host"));
        }
        let ln = &lowered_names[i];
        assert(lnames[i as int] == ln@);
        let mut j: usize = 0;
        while j < i
            invariant
                j <= i,
                forall|k: int| 0 <= k < j ==> #[trigger] lnames[k] != ln@,
            decreases i - j,
        {
            assert(lnames[j as int] == lowered_names@[j as int]@);
            if lowered_names[j] == *ln {
                proof {
                    lemma_first_issue_persists(views, lids, lnames, i as int, cs.len() as int);
                }
                return Err(
                    quoted_message("duplicate connection name '", c.name.as_str(), "'"),
                );
            }
            j = j + 1;
        }
        assert(!earlier_name_clash(lnames, i as int, lnames[i as int]));
        if any_blank(&c.options) {
            proof {
                let k = choose|k: int| 0 <= k < c.options@.len() && is_blank(c.options@[k]@);
                assert(views[i as int].options[k] == c.options@[k]@);
                lemma_first_issue_persists(views, lids, lnames, i as int, cs.len() as int);
            }
            return Err(
                quoted_message("connection '", c.name.as_str(), "' contains an empty ssh option"),
            );
        }
        assert(!has_blank_option(views[i as int])) by {
            assert forall|k: int| 0 <= k < views[i as int].options.len() implies !is_blank(
                #[trigger] views[i as int].options[k],
            ) by {
                assert(views[i as int].options[k] == c.options@[k]@);
            }
        }
        assert(connection_issue(views, lids, lnames, i as int) is None);
        i = i + 1;
    }
    Ok(())
}

/// Checks a configuration: at least one connection; no blank id, name, host or
/// option; no two ids, and no two names, equal once lower-cased.
pub fn validate_config(config: &AppConfig) -> (r: Result<(), ConfigError>)
    ensures
        match validation_message(connection_views(config.connections@)) {
            None => r is Ok,
            Some(msg) => r matches Err(ConfigError::Validation(m)) && m@ == msg,
        },
{
    let cs = &config.connections;
    let ghost views = connection_views(cs@);
    let mut ids: Vec<Option<String>> = Vec::new();
    let mut names: Vec<String> = Vec::new();
    let mut i: usize = 0;
    while i < cs.len()
        invariant
            views == connection_views(cs@),
            i <= cs.len(),
            ids.len() == i,
            names.len() == i,
            ids.deep_view() == lowered_ids(views).take(i as int),
            names.deep_view() == lowered_names(views).take(i as int),
        decreases cs.len() - i,
    {
        let c = &cs[i];
        assert(views[i as int] == c@);
        let ghost before_ids = ids.deep_view();
        let ghost before_names = names.deep_view();
        let lid = match &c.id {
            Some(id) => Some(lowercase_of(id.as_str())),
            None => None,
        };
        let ln = lowercase_of(c.name.as_str());
        ids.push(lid);
        names.push(ln);
        assert(ids.deep_view() =~= before_ids.push(lowered_ids(views)[i as int]));
        assert(names.deep_view() =~= before_names.push(lowered_names(views)[i as int]));
        assert(lowered_ids(views).take(i + 1) =~= lowered_ids(views).take(i as int).push(
            lowered_ids(views)[i as int],
        ));
        assert(lowered_names(views).take(i + 1) =~= lowered_names(views).take(i as int).push(
            lowered_names(views)[i as int],
        ));
        i = i + 1;
    }
    assert(lowered_ids(views).take(i as int) =~= lowered_ids(views));
    assert(lowered_names(views).take(i as int) =~= lowered_names(views));
    validate_lowered(config, &ids, &names)
}

/// Each field of the connection that must hold text does, on its own.
pub open spec fn connection_fields_ok(c: ConnectionView) -> bool {
    &&& (c.id is Some ==> !is_blank(c.id->0))
    &&& !is_blank(c.name)
    &&& !is_blank(c.host)
    &&& !has_blank_option(c)
}

/// The first `n` connections have sound fields, and no two of them share a
/// lower-cased name or a lower-cased id.
pub open spec fn prefix_is_valid(cs: Seq<ConnectionView>, n: int) -> bool {
    &&& forall|i: int| 0 <= i < n ==> connection_fields_ok(#[trigger] cs[i])
    &&& forall|i: int, j: int|
        0 <= i < j < n ==> lowercase((#[trigger] cs[i]).name) != lowercase((#[trigger] cs[j]).name)
    &&& forall|i: int, j: int|
        0 <= i < j < n && (#[trigger] cs[i]).id is Some && (#[trigger] cs[j]).id is Some
            ==> lowercase(cs[i].id->0) != lowercase(cs[j].id->0)
}

/// A configuration the program accepts: at least one connection, every field
/// filled in, names and ids unique regardless of case.
pub open spec fn config_is_valid(cs: Seq<ConnectionView>) -> bool {
    cs.len() > 0 && prefix_is_valid(cs, cs.len() as int)
}

proof fn lemma_first_issue_none_iff_prefix_valid(cs: Seq<ConnectionView>, n: int)
    requires
        0 <= n <= cs.len(),
    ensures
        first_issue(cs, lowered_ids(cs), lowered_names(cs), n) is None <==> prefix_is_valid(cs, n),
    decreases n,
{
    let lids = lowered_ids(cs);
    let lnames = lowered_names(cs);
    if n > 0 {
        lemma_first_issue_none_iff_prefix_valid(cs, n - 1);
        let k = n - 1;
        let c = cs[k];
        if first_issue(cs, lids, lnames, n) is None {
            assert(prefix_is_valid(cs, k));
            assert(connection_issue(cs, lids, lnames, k) is None);
            assert forall|i: int, j: int|
                0 <= i < j < n implies lowercase((#[trigger] cs[i]).name) != lowercase(
                (#[trigger] cs[j]).name,
            ) by {
                if j == k {
                    if lowercase(cs[i].name) == lowercase(c.name) {
                        assert(lnames[i] == lnames[k]);
                        assert(earlier_name_clash(lnames, k, lnames[k]));
                    }
                }
            }
            assert forall|i: int, j: int|
                0 <= i < j < n && (#[trigger] cs[i]).id is Some && (#[trigger] cs[j]).id is Some
                    implies lowercase(cs[i].id->0) != lowercase(cs[j].id->0) by {
                if j == k {
                    if lowercase(cs[i].id->0) == lowercase(c.id->0) {
                        assert(lids[i] == lids[k]);
                        assert(earlier_id_clash(lids, k, lids[k]->0));
                    }
                }
            }
        }
        if prefix_is_valid(cs, n) {
            assert(prefix_is_valid(cs, k));
            assert(connection_fields_ok(cs[k]));
            if c.id is Some {
                assert(!earlier_id_clash(lids, k, lids[k]->0)) by {
                    if earlier_id_clash(lids, k, lids[k]->0) {
                        let j = choose|j: int| 0 <= j < k && #[trigger] lids[j] == Some(lids[k]->0);
                        assert(cs[j].id is Some && cs[k].id is Some);
                    }
                }
            }
            assert(!earlier_name_clash(lnames, k, lnames[k])) by {
                if earlier_name_clash(lnames, k, lnames[k]) {
                    let j = choose|j: int| 0 <= j < k && #[trigger] lnames[j] == lnames[k];
                    assert(lowercase(cs[j].name) != lowercase(cs[k].name));
                }
            }
            assert(connection_issue(cs, lids, lnames, k) is None);
        }
    }
}

/// `validate_config` accepts a configuration exactly when it is valid: it has at
/// least one connection, no blank id, name, host or option, and no two
/// connections whose names (or whose ids) are equal once lower-cased.
pub proof fn lemma_validation_accepts_exactly_valid_configs(cs: Seq<ConnectionView>)
    ensures
        validation_message(cs) is None <==> config_is_valid(cs),
{
    if cs.len() > 0 {
        lemma_first_issue_none_iff_prefix_valid(cs, cs.len() as int);
    }
}

/// An empty list of connections is refused with its own message.
pub proof fn lemma_empty_config_message(cs: Seq<ConnectionView>)
    requires
        cs.len() == 0,
    ensures
        validation_message(cs) == Some("connections list must contain at least one entry"@),
{
}

/// When the connections before position `i` are all fine, the message names the
/// first problem of connection `i`, checked in this order: a blank id, an id
/// already used (ignoring case), a blank name, a blank host, a name already used
/// (ignoring case), a blank option.
pub proof fn lemma_rejection_message(cs: Seq<ConnectionView>, i: int)
    requires
        0 <= i < cs.len(),
        prefix_is_valid(cs, i),
    ensures
        cs[i].id is Some && is_blank(cs[i].id->0) ==> validation_message(cs) == Some(
            "connection id cannot be empty"@,
        ),
        cs[i].id is Some && !is_blank(cs[i].id->0) && (exists|j: int|
            0 <= j < i && (#[trigger] cs[j]).id is Some && lowercase(cs[j].id->0) == lowercase(
                cs[i].id->0,
            )) ==> validation_message(cs) == Some(
            "duplicate connection id '"@ + cs[i].id->0 + "'"@,
        ),
        (cs[i].id is None || (!is_blank(cs[i].id->0) && forall|j: int|
            0 <= j < i && (#[trigger] cs[j]).id is Some ==> lowercase(cs[j].id->0) != lowercase(
                cs[i].id->0,
            ))) ==> {
            &&& is_blank(cs[i].name) ==> validation_message(cs) == Some(
                "connection name cannot be empty"@,
            )
            &&& !is_blank(cs[i].name) && is_blank(cs[i].host) ==> validation_message(cs) == Some(
                "connection '"@ + cs[i].name + "' has empty host"@,
            )
            &&& !is_blank(cs[i].name) && !is_blank(cs[i].host) && (exists|j: int|
                0 <= j < i && lowercase((#[trigger] cs[j]).name) == lowercase(cs[i].name))
                ==> validation_message(cs) == Some(
                "duplicate connection name '"@ + cs[i].name + "'"@,
            )
            &&& !is_blank(cs[i].name) && !is_blank(cs[i].host) && (forall|j: int|
                0 <= j < i ==> lowercase((#[trigger] cs[j]).name) != lowercase(cs[i].name)) && (
            exists|k: int| 0 <= k < cs[i].options.len() && is_blank(#[trigger] cs[i].options[k]))
                ==> validation_message(cs) == Some(
                "connection '"@ + cs[i].name + "' contains an empty ssh option"@,
            )
        },
{
    let lids = lowered_ids(cs);
    let lnames = lowered_names(cs);
    lemma_first_issue_none_iff_prefix_valid(cs, i);
    let c = cs[i];
    if c.id is Some {
        if earlier_id_clash(lids, i, lids[i]->0) {
            let j = choose|j: int| 0 <= j < i && #[trigger] lids[j] == Some(lids[i]->0);
            assert(cs[j].id is Some);
        }
        if exists|j: int|
            0 <= j < i && (#[trigger] cs[j]).id is Some && lowercase(cs[j].id->0) == lowercase(
                c.id->0,
            ) {
            let j = choose|j: int|
                0 <= j < i && (#[trigger] cs[j]).id is Some && lowercase(cs[j].id->0) == lowercase(
                    c.id->0,
                );
            assert(lids[j] == Some(lids[i]->0));
        }
    }
    if earlier_name_clash(lnames, i, lnames[i]) {
        let j = choose|j: int| 0 <= j < i && #[trigger] lnames[j] == lnames[i];
        assert(lowercase(cs[j].name) == lowercase(c.name));
    }
    if exists|j: int| 0 <= j < i && lowercase((#[trigger] cs[j]).name) == lowercase(c.name) {
        let j = choose|j: int| 0 <= j < i && lowercase((#[trigger] cs[j]).name) == lowercase(c.name);
        assert(lnames[j] == lnames[i]);
    }
    if connection_issue(cs, lids, lnames, i) is Some {
        lemma_first_issue_persists(cs, lids, lnames, i, cs.len() as int);
    }
}

proof fn lemma_valid_under_reordering(cs: Seq<ConnectionView>, cs2: Seq<ConnectionView>, perm: Seq<int>)
    requires
        cs2.len() == cs.len(),
        perm.len() == cs.len(),
        forall|i: int| 0 <= i < perm.len() ==> 0 <= #[trigger] perm[i] < cs.len(),
        forall|i: int, j: int| 0 <= i < j < perm.len() ==> #[trigger] perm[i] != #[trigger] perm[j],
        forall|i: int| 0 <= i < cs2.len() ==> #[trigger] cs2[i] == cs[perm[i]],
        config_is_valid(cs),
    ensures
        config_is_valid(cs2),
{
    let n = cs.len() as int;
    assert forall|i: int| 0 <= i < n implies connection_fields_ok(#[trigger] cs2[i]) by {
        assert(connection_fields_ok(cs[perm[i]]));
    }
    assert forall|i: int, j: int| 0 <= i < j < n implies lowercase((#[trigger] cs2[i]).name)
        != lowercase((#[trigger] cs2[j]).name) by {
        let a = perm[i];
        let b = perm[j];
        assert(cs2[i] == cs[a] && cs2[j] == cs[b]);
        if a < b {
            assert(lowercase(cs[a].name) != lowercase(cs[b].name));
        } else {
            assert(a != b);
            assert(lowercase(cs[b].name) != lowercase(cs[a].name));
        }
    }
    assert forall|i: int, j: int|
        0 <= i < j < n && (#[trigger] cs2[i]).id is Some && (#[trigger] cs2[j]).id is Some
            implies lowercase(cs2[i].id->0) != lowercase(cs2[j].id->0) by {
        let a = perm[i];
        let b = perm[j];
        assert(cs2[i] == cs[a] && cs2[j] == cs[b]);
        if a < b {
            assert(cs[a].id is Some && cs[b].id is Some);
        } else {
            assert(a != b);
            assert(cs[b].id is Some && cs[a].id is Some);
        }
    }
}

/// Some position of `perm` holds `k`.
pub open spec fn takes_value(perm: Seq<int>, k: int) -> bool {
    exists|i: int| 0 <= i < perm.len() && #[trigger] perm[i] == k
}

/// Whether a configuration is accepted does not depend on the order of its
/// connections: `perm` rearranges the connections of `cs` into `reordered`
/// (each position of `cs` is used exactly once).
pub proof fn lemma_acceptance_ignores_order(
    cs: Seq<ConnectionView>,
    reordered: Seq<ConnectionView>,
    perm: Seq<int>,
)
    requires
        reordered.len() == cs.len(),
        perm.len() == cs.len(),
        forall|i: int| 0 <= i < perm.len() ==> 0 <= #[trigger] perm[i] < cs.len(),
        forall|i: int, j: int| 0 <= i < j < perm.len() ==> #[trigger] perm[i] != #[trigger] perm[j],
        forall|k: int| 0 <= k < cs.len() ==> #[trigger] takes_value(perm, k),
        forall|i: int| 0 <= i < reordered.len() ==> #[trigger] reordered[i] == cs[perm[i]],
    ensures
        validation_message(cs) is None <==> validation_message(reordered) is None,
{
    lemma_validation_accepts_exactly_valid_configs(cs);
    lemma_validation_accepts_exactly_valid_configs(reordered);
    if config_is_valid(cs) {
        lemma_valid_under_reordering(cs, reordered, perm);
    }
    if config_is_valid(reordered) {
        let inv = Seq::new(cs.len(), |k: int| choose|i: int| 0 <= i < perm.len() && perm[i] == k);
        assert forall|k: int| 0 <= k < inv.len() implies 0 <= #[trigger] inv[k] < reordered.len()
            && perm[inv[k]] == k by {
            assert(takes_value(perm, k));
        }
        assert forall|k: int, l: int| 0 <= k < l < inv.len() implies #[trigger] inv[k]
            != #[trigger] inv[l] by {
            assert(perm[inv[k]] == k && perm[inv[l]] == l);
        }
        assert forall|k: int| 0 <= k < cs.len() implies #[trigger] cs[k] == reordered[inv[k]] by {
            assert(perm[inv[k]] == k);
        }
        lemma_valid_under_reordering(reordered, cs, inv);
    }
}

/// What the file system and the process say of the configuration file.
pub struct ConfigFileFacts {
    /// The path names a regular file.
    pub is_file: bool,
    /// Permission bits and ownership, where the platform has them (Unix).
    pub unix: Option<UnixFileFacts>,
}

/// Unix permission bits and owner of the configuration file, and the effective
/// user id of the running process.
pub struct UnixFileFacts {
    pub mode: u32,
    pub uid: u32,
    pub euid: u32,
}

/// The message the configuration file at `path` is refused with, or `None` when
/// it may be read: it must be a regular file, not writable by group or others,
/// and owned by the current user or by root.
pub open spec fn security_message(path: Seq<char>, facts: ConfigFileFacts) -> Option<Seq<char>> {
    if !facts.is_file {
        Some("config path '"@ + path + "' must point to a regular file"@)
    } else {
        match facts.unix {
            None => None,
            Some(u) => if u.mode & 0o022u32 != 0 {
                Some("config '"@ + path + "' is writable by group/others; run chmod 600"@)
            } else if u.uid != u.euid && u.uid != 0 {
                Some("config '"@ + path + "' must be owned by the current user (or root)"@)
            } else {
                None
            },
        }
    }
}

/// Decides whether the configuration file, described by `facts`, is safe to
/// read; `path` is how the file is named in the message.
pub fn verify_config_security(path: &str, facts: &ConfigFileFacts) -> (r: Result<(), ConfigError>)
    ensures
        match security_message(path@, *facts) {
            None => r is Ok,
            Some(msg) => r matches Err(ConfigError::Validation(m)) && m@ == msg,
        },
{
    if !facts.is_file {
        return Err(quoted_message("config path '", path, "' must point to a regular file"));
    }
    match &facts.unix {
        None => Ok(()),
        Some(u) => {
            if u.mode & 0o022u32 != 0 {
                Err(quoted_message("config '", path, "' is writable by group/others; run chmod 600"))
            } else if u.uid != u.euid && u.uid != 0 {
                Err(
                    quoted_message(
                        "config '",
                        path,
                        "' must be owned by the current user (or root)",
                    ),
                )
            } else {
                Ok(())
            }
        },
    }
}

/// The file may be read exactly when it is a regular file and, where the
/// platform has permission bits, neither group nor others may write to it and it
/// belongs to the effective user or to root. Its read bits, and every other bit
/// of its mode, play no part.
pub proof fn lemma_security_decision(path: Seq<char>, facts: ConfigFileFacts)
    ensures
        security_message(path, facts) is None <==> (facts.is_file && match facts.unix {
            None => true,
            Some(u) => u.mode & 0o022u32 == 0 && (u.uid == u.euid || u.uid == 0),
        }),
{
}

/// Two descriptions of a file that differ only in mode bits other than group
/// and other write get the same answer.
pub proof fn lemma_security_ignores_other_mode_bits(
    path: Seq<char>,
    f1: ConfigFileFacts,
    f2: ConfigFileFacts,
)
    requires
        f1.is_file == f2.is_file,
        f1.unix is Some == f2.unix is Some,
        f1.unix is Some ==> {
            let (u1, u2) = (f1.unix->0, f2.unix->0);
            &&& u1.uid == u2.uid
            &&& u1.euid == u2.euid
            &&& u1.mode & 0o022u32 == u2.mode & 0o022u32
        },
    ensures
        security_message(path, f1) == security_message(path, f2),
{
}

/// The environment variables that decide where the configuration file lives.
pub struct ConfigEnv {
    /// `SSH_QC_CONFIG`
    pub override_path: Option<String>,
    /// `XDG_CONFIG_HOME` (Unix-like systems)
    pub xdg_config_home: Option<String>,
    /// `HOME` (Unix-like systems)
    pub home: Option<String>,
    /// `APPDATA` (Windows)
    pub app_data: Option<String>,
    /// `USERPROFILE` (Windows)
    pub user_profile: Option<String>,
}

/// The path of the configuration file, as the components to join in order.
pub open spec fn config_path_spec(
    override_path: Option<Seq<char>>,
    xdg_config_home: Option<Seq<char>>,
    home: Option<Seq<char>>,
    app_data: Option<Seq<char>>,
    user_profile: Option<Seq<char>>,
    windows: bool,
) -> Seq<Seq<char>> {
    if override_path is Some {
        seq![override_path->0]
    } else if windows && app_data is Some {
        seq![app_data->0, "ssh-quick-connect"@, "config.toml"@]
    } else if windows && user_profile is Some {
        seq![user_profile->0, ".ssh-quick-connect"@, "config.toml"@]
    } else if !windows && xdg_config_home is Some {
        seq![xdg_config_home->0, "ssh-quick-connect"@, "config.toml"@]
    } else if !windows && home is Some {
        seq![home->0, ".config"@, "ssh-quick-connect"@, "config.toml"@]
    } else {
        seq!["config.toml"@]
    }
}

/// Where the configuration file is looked for: the override alone when it is
/// set; otherwise the file `config.toml` in the platform's directory, from the
/// first variable of the platform that is set; otherwise `config.toml` itself.
/// The other platform's variables play no part.
pub proof fn lemma_config_path_choice(
    o: Option<Seq<char>>,
    x: Option<Seq<char>>,
    h: Option<Seq<char>>,
    a: Option<Seq<char>>,
    u: Option<Seq<char>>,
    windows: bool,
)
    ensures
        o is Some ==> config_path_spec(o, x, h, a, u, windows) == seq![o->0],
        o is None ==> config_path_spec(o, x, h, a, u, windows).len() >= 1 && config_path_spec(
            o,
            x,
            h,
            a,
            u,
            windows,
        ).last() == "config.toml"@,
        o is None && !windows && x is Some ==> config_path_spec(o, x, h, a, u, windows) == seq![
            x->0,
            "ssh-quick-connect"@,
            "config.toml"@,
        ],
        o is None && !windows && x is None && h is Some ==> config_path_spec(o, x, h, a, u, windows)
            == seq![h->0, ".config"@, "ssh-quick-connect"@, "config.toml"@],
        o is None && windows && a is Some ==> config_path_spec(o, x, h, a, u, windows) == seq![
            a->0,
            "ssh-quick-connect"@,
            "config.toml"@,
        ],
        o is None && windows && a is None && u is Some ==> config_path_spec(o, x, h, a, u, windows)
            == seq![u->0, ".ssh-quick-connect"@, "config.toml"@],
        o is None && !windows && x is None && h is None ==> config_path_spec(o, x, h, a, u, windows)
            == seq!["config.toml"@],
        o is None && windows && a is None && u is None ==> config_path_spec(o, x, h, a, u, windows)
            == seq!["config.toml"@],
        !windows ==> config_path_spec(o, x, h, a, u, windows) == config_path_spec(
            o,
            x,
            h,
            None,
            None,
            windows,
        ),
        windows ==> config_path_spec(o, x, h, a, u, windows) == config_path_spec(
            o,
            None,
            None,
            a,
            u,
            windows,
        ),
{
}

fn push_str(v: &mut Vec<String>, s: &str)
    ensures
        final(v).deep_view() == old(v).deep_view().push(s@),
{
    let ghost before = v.deep_view();
    v.push(String::from_str(s));
    assert(v.deep_view() =~= before.push(s@));
}

/// Where the configuration file is looked for: `SSH_QC_CONFIG` when set; else,
/// on Windows, `%APPDATA%/ssh-quick-connect/config.toml` or
/// `%USERPROFILE%/.ssh-quick-connect/config.toml`; elsewhere
/// `$XDG_CONFIG_HOME/ssh-quick-connect/config.toml` or
/// `$HOME/.config/ssh-quick-connect/config.toml`; else `config.toml`.
pub fn config_path_components(env: &ConfigEnv, windows: bool) -> (r: Vec<String>)
    ensures
        r.deep_view() == config_path_spec(
            env.override_path.deep_view(),
            env.xdg_config_home.deep_view(),
            env.home.deep_view(),
            env.app_data.deep_view(),
            env.user_profile.deep_view(),
            windows,
        ),
{
    let mut r: Vec<String> = Vec::new();
    assert(r.deep_view() =~= seq![]);
    if let Some(p) = &env.override_path {
        push_str(&mut r, p.as_str());
        assert(r.deep_view() =~= seq![p@]);
        return r;
    }
    if windows {
        if let Some(a) = &env.app_data {
            push_str(&mut r, a.as_str());
            push_str(&mut r, "ssh-quick-connect");
            push_str(&mut r, "config.toml");
            assert(r.deep_view() =~= seq![a@, "ssh-quick-connect"@, "config.toml"@]);
            return r;
        }
        if let Some(u) = &env.user_profile {
            push_str(&mut r, u.as_str());
            push_str(&mut r, ".ssh-quick-connect");
            push_str(&mut r, "config.toml");
            assert(r.deep_view() =~= seq![u@, ".ssh-quick-connect"@, "config.toml"@]);
            return r;
        }
    } else {
        if let Some(x) = &env.xdg_config_home {
            push_str(&mut r, x.as_str());
            push_str(&mut r, "ssh-quick-connect");
            push_str(&mut r, "config.toml");
            assert(r.deep_view() =~= seq![x@, "ssh-quick-connect"@, "config.toml"@]);
            return r;
        }
        if let Some(h) = &env.home {
            push_str(&mut r, h.as_str());
            push_str(&mut r, ".config");
            push_str(&mut r, "ssh-quick-connect");
            push_str(&mut r, "config.toml");
            assert(r.deep_view() =~= seq![h@, ".config"@, "ssh-quick-connect"@, "config.toml"@]);
            return r;
        }
    }
    push_str(&mut r, "config.toml");
    assert(r.deep_view() =~= seq!["config.toml"@]);
    r
}

} // verus!
