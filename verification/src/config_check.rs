use vstd::prelude::*;
use crate::permissions::{check_permissions, permission_bits, SECURE_DIR_MODE};

verus! {

/// What was found at a path that the program expects.
#[derive(Debug)]
pub enum PathState {
    /// Nothing is there.
    Missing,
    /// It is there, with the expected permission bits.
    Secure,
    /// It is there, with other permission bits.
    Insecure { mode: u32 },
    /// It is there, but its mode could not be read.
    ModeUnknown,
}

/// The state of a path, from whether it exists and its raw Unix mode
/// where that could be read.
pub open spec fn path_state_of(exists: bool, raw_mode: Option<u32>, expected_mode: u32) -> PathState {
    if !exists {
        PathState::Missing
    } else {
        match raw_mode {
            None => PathState::ModeUnknown,
            Some(m) => if permission_bits(m) == expected_mode {
                PathState::Secure
            } else {
                PathState::Insecure { mode: permission_bits(m) }
            },
        }
    }
}

/// Judges a path that the program expects, from whether it exists and its
/// raw Unix mode where that could be read.
pub fn path_state(exists: bool, raw_mode: Option<u32>, expected_mode: u32) -> (state: PathState)
    ensures
        state == path_state_of(exists, raw_mode, expected_mode),
        !exists ==> state is Missing,
        exists && raw_mode is None ==> state is ModeUnknown,
        exists && raw_mode is Some ==> {
            let bits = raw_mode.unwrap() & 0o777u32;
            &&& state is Secure <==> bits == expected_mode
            &&& bits != expected_mode ==> state == (PathState::Insecure { mode: bits })
        },
{
    if !exists {
        return PathState::Missing;
    }
    match raw_mode {
        None => PathState::ModeUnknown,
        Some(m) => {
            let (is_secure, mode) = check_permissions(m, expected_mode);
            if is_secure {
                PathState::Secure
            } else {
                PathState::Insecure { mode }
            }
        },
    }
}

/// What setting up one of the program's directories takes.
#[derive(Debug, PartialEq, Eq, Structural)]
pub enum DirectoryAction {
    /// Create it, then give it `SECURE_DIR_MODE`.
    Create,
    /// It exists with other permission bits: give it `SECURE_DIR_MODE`.
    FixPermissions,
    /// It exists and is left as it is.
    Keep,
}

/// How `config init` treats one of the program's directories.
pub open spec fn init_directory_action_of(exists: bool, raw_mode: Option<u32>) -> DirectoryAction {
    match path_state_of(exists, raw_mode, SECURE_DIR_MODE) {
        PathState::Missing => DirectoryAction::Create,
        PathState::Insecure { .. } => DirectoryAction::FixPermissions,
        _ => DirectoryAction::Keep,
    }
}

/// Decides how to set up one of the program's directories, from whether it
/// exists and its raw Unix mode where that could be read: create what is
/// missing, tighten permissions known to be wider than `SECURE_DIR_MODE`,
/// and leave the rest.
pub fn init_directory_action(exists: bool, raw_mode: Option<u32>) -> (action: DirectoryAction)
    ensures
        action == init_directory_action_of(exists, raw_mode),
        !exists ==> action == DirectoryAction::Create,
        exists && raw_mode is None ==> action == DirectoryAction::Keep,
        exists && raw_mode is Some ==> {
            &&& action == DirectoryAction::FixPermissions <==> raw_mode.unwrap() & 0o777u32
                != 0o700u32
            &&& action == DirectoryAction::Keep <==> raw_mode.unwrap() & 0o777u32 == 0o700u32
        },
{
    match path_state(exists, raw_mode, SECURE_DIR_MODE) {
        PathState::Missing => DirectoryAction::Create,
        PathState::Insecure { .. } => DirectoryAction::FixPermissions,
        _ => DirectoryAction::Keep,
    }
}

/// Once a directory has the permission bits that `config init` gives it,
/// `config check` finds it secure and a second `config init` leaves it as
/// it is.
pub proof fn lemma_secured_directory_is_settled(raw_mode: u32)
    requires
        permission_bits(raw_mode) == SECURE_DIR_MODE,
    ensures
        path_state_of(true, Some(raw_mode), SECURE_DIR_MODE) == PathState::Secure,
        init_directory_action_of(true, Some(raw_mode)) == DirectoryAction::Keep,
{
}

/// `config check` and `config init` compare all nine permission bits: an
/// existing path whose mode is known is secure exactly when its raw mode,
/// masked with `0o777`, is the expected mode, and is otherwise reported
/// insecure with those bits; `config init` then fixes exactly those
/// directories whose bits are not `0o700`.
pub proof fn lemma_permission_verdicts(exists: bool, raw_mode: Option<u32>, expected_mode: u32)
    ensures
        !exists ==> path_state_of(exists, raw_mode, expected_mode) == PathState::Missing,
        !exists ==> init_directory_action_of(exists, raw_mode) == DirectoryAction::Create,
        exists && raw_mode is None ==> path_state_of(exists, raw_mode, expected_mode)
            == PathState::ModeUnknown,
        exists && raw_mode is None ==> init_directory_action_of(exists, raw_mode)
            == DirectoryAction::Keep,
        exists && raw_mode is Some ==> {
            let bits = raw_mode.unwrap() & 0o777u32;
            &&& bits == expected_mode ==> path_state_of(exists, raw_mode, expected_mode)
                == PathState::Secure
            &&& bits != expected_mode ==> path_state_of(exists, raw_mode, expected_mode)
                == (PathState::Insecure { mode: bits })
            &&& bits == 0o700u32 ==> init_directory_action_of(exists, raw_mode)
                == DirectoryAction::Keep
            &&& bits != 0o700u32 ==> init_directory_action_of(exists, raw_mode)
                == DirectoryAction::FixPermissions
        },
{
}

/// Which of the two keys that an OAuth2 client needs a credential section
/// of the client secret file holds.
#[derive(Debug, Clone, Copy)]
pub struct CredentialKeys {
    pub has_client_id: bool,
    pub has_client_secret: bool,
}

/// The sections of a client secret file that the program reads: the
/// `installed` (desktop app) and `web` credentials, where present.
#[derive(Debug, Clone, Copy)]
pub struct ClientSecretKeys {
    pub installed: Option<CredentialKeys>,
    pub web: Option<CredentialKeys>,
}

/// The verdict on the client secret file.
#[derive(Debug)]
pub enum ClientSecretState {
    /// There is no such file.
    NotFound,
    /// The file could not be read, for the reason given.
    Unreadable(String),
    /// The file is not JSON, for the reason given.
    InvalidJson(String),
    /// It has neither an `installed` nor a `web` section.
    MissingSection,
    /// Its credential section lacks `client_id` or `client_secret`.
    MissingCredentials,
    /// It has a credential section with both keys.
    Valid,
}

/// The verdict on the keys of a client secret file: the `installed`
/// section is judged where there is one, else the `web` section.
pub open spec fn client_secret_state_of(keys: ClientSecretKeys) -> ClientSecretState {
    let section = match keys.installed {
        Some(c) => Some(c),
        None => keys.web,
    };
    match section {
        None => ClientSecretState::MissingSection,
        Some(c) => if c.has_client_id && c.has_client_secret {
            ClientSecretState::Valid
        } else {
            ClientSecretState::MissingCredentials
        },
    }
}

/// Judges the keys of a client secret file: the `installed` section where
/// there is one, else the `web` section, must hold both `client_id` and
/// `client_secret`.
pub fn classify_client_secret(keys: &ClientSecretKeys) -> (state: ClientSecretState)
    ensures
        state == client_secret_state_of(*keys),
        state is Valid <==> {
            ||| keys.installed matches Some(c) && c.has_client_id && c.has_client_secret
            ||| keys.installed is None && (keys.web matches Some(c) && c.has_client_id
                && c.has_client_secret)
        },
        state is MissingSection <==> keys.installed is None && keys.web is None,
        state is Valid || state is MissingSection || state is MissingCredentials,
{
    let section = match keys.installed {
        Some(c) => Some(c),
        None => keys.web,
    };
    match section {
        None => ClientSecretState::MissingSection,
        Some(c) => if c.has_client_id && c.has_client_secret {
            ClientSecretState::Valid
        } else {
            ClientSecretState::MissingCredentials
        },
    }
}

/// A member of a JSON object: its key and, where its value is itself an
/// object, the keys of that object.
#[derive(Debug)]
pub struct JsonMember {
    pub key: String,
    pub member_keys: Option<Vec<String>>,
}

/// A member of a JSON object, as text: its key, and the keys of its value
/// where that is an object.
pub type JsonMemberText = (Seq<char>, Option<Seq<Seq<char>>>);

/// The texts of a list of strings.
pub open spec fn strings_view(v: Vec<String>) -> Seq<Seq<char>> {
    v@.map_values(|s: String| s@)
}

/// The text of a member.
pub open spec fn member_view(m: JsonMember) -> JsonMemberText {
    (
        m.key@,
        match m.member_keys {
            Some(v) => Some(strings_view(v)),
            None => None,
        },
    )
}

/// The text of the members of a JSON value, where the value is an object.
pub open spec fn key_tree_view(tree: Option<Vec<JsonMember>>) -> Option<Seq<JsonMemberText>> {
    match tree {
        Some(v) => Some(v@.map_values(|m: JsonMember| member_view(m))),
        None => None,
    }
}

/// What `serde_json` makes of a text parsed as a `serde_json::Value`:
/// `None` where the text is not JSON; otherwise, where the value is an
/// object, its members in the order in which the object holds them, each
/// with the keys of its value where that is an object.
pub uninterp spec fn json_key_tree(content: Seq<char>) -> Option<Option<Seq<JsonMemberText>>>;

/// Parses a text with `serde_json::from_str::<serde_json::Value>` and
/// lists the keys of the object it holds, two levels deep (`Map::iter`,
/// `Value::as_object`, `Map::keys`). The contract names the outcome; the
/// error is the parser's message.
#[verifier::external_body]
fn parse_json_key_tree(content: &str) -> (result: Result<Option<Vec<JsonMember>>, String>)
    ensures
        result is Ok <==> json_key_tree(content@) is Some,
        result matches Ok(t) ==> json_key_tree(content@) == Some(key_tree_view(t)),
{
    match serde_json::from_str::<serde_json::Value>(content) {
        Ok(serde_json::Value::Object(map)) => Ok(Some(map.iter().map(|(k, v)| JsonMember {
            key: k.clone(),
            member_keys: v.as_object().map(|o| o.keys().cloned().collect()),
        }).collect())),
        Ok(_) => Ok(None),
        Err(e) => Err(e.to_string()),
    }
}

/// The value found under a key among the members of an object, as
/// `Value::get` finds it: the first member with that key.
pub open spec fn member_of(members: Seq<JsonMemberText>, key: Seq<char>) -> Option<
    Option<Seq<Seq<char>>>,
>
    decreases members.len(),
{
    if members.len() == 0 {
        None
    } else if members[0].0 == key {
        Some(members[0].1)
    } else {
        member_of(members.drop_first(), key)
    }
}

/// `member_of` finds the first member with the key: there is a value
/// exactly when some member has the key, and then it is the value of the
/// first such member.
pub proof fn lemma_member_of_finds_first(members: Seq<JsonMemberText>, key: Seq<char>)
    ensures
        member_of(members, key) is Some <==> exists|i: int|
            0 <= i < members.len() && (#[trigger] members[i]).0 == key,
        forall|i: int|
            0 <= i < members.len() && (#[trigger] members[i]).0 == key && (forall|j: int|
                0 <= j < i ==> members[j].0 != key) ==> member_of(members, key) == Some(
                members[i].1,
            ),
    decreases members.len(),
{
    if members.len() > 0 {
        let rest = members.drop_first();
        lemma_member_of_finds_first(rest, key);
        if members[0].0 != key {
            assert forall|i: int| 1 <= i < members.len() implies members[i] == rest[i - 1] by {}
            if exists|i: int| 0 <= i < members.len() && (#[trigger] members[i]).0 == key {
                let i = choose|i: int| 0 <= i < members.len() && (#[trigger] members[i]).0 == key;
                assert(rest[i - 1].0 == key);
            }
            if exists|i: int| 0 <= i < rest.len() && (#[trigger] rest[i]).0 == key {
                let i = choose|i: int| 0 <= i < rest.len() && (#[trigger] rest[i]).0 == key;
                assert(members[i + 1].0 == key);
            }
            assert forall|i: int|
                0 <= i < members.len() && (#[trigger] members[i]).0 == key && (forall|j: int|
                    0 <= j < i ==> members[j].0 != key) implies member_of(members, key) == Some(
                members[i].1,
            ) by {
                assert(i >= 1);
                assert(rest[i - 1] == members[i]);
                assert forall|j: int| 0 <= j < i - 1 implies rest[j].0 != key by {
                    assert(rest[j] == members[j + 1]);
                }
            }
        }
    }
}

/// The keys that a credential section holds, from the keys of its value
/// (none where the value is not an object).
pub open spec fn credential_keys_of(section: Option<Seq<Seq<char>>>) -> CredentialKeys {
    CredentialKeys {
        has_client_id: section matches Some(ks) && ks.contains("client_id"@),
        has_client_secret: section matches Some(ks) && ks.contains("client_secret"@),
    }
}

/// The section under a key of the client secret file, where there is one.
pub open spec fn section_of(tree: Option<Seq<JsonMemberText>>, key: Seq<char>) -> Option<
    CredentialKeys,
> {
    match tree {
        None => None,
        Some(members) => match member_of(members, key) {
            None => None,
            Some(value) => Some(credential_keys_of(value)),
        },
    }
}

/// The keys that the program reads from the parsed client secret file.
pub open spec fn client_secret_keys_of(tree: Option<Seq<JsonMemberText>>) -> ClientSecretKeys {
    ClientSecretKeys {
        installed: section_of(tree, "installed"@),
        web: section_of(tree, "web"@),
    }
}

/// The program reads the `installed` section exactly where the file's
/// object has a member named `installed`, and the `web` section exactly
/// where it has one named `web`; a section counts a key only where its
/// value is an object holding that key.
pub proof fn lemma_client_secret_keys_read_sections(tree: Option<Seq<JsonMemberText>>)
    ensures
        client_secret_keys_of(tree).installed is Some <==> (tree is Some && exists|i: int|
            0 <= i < tree.unwrap().len() && (#[trigger] tree.unwrap()[i]).0 == "installed"@),
        client_secret_keys_of(tree).web is Some <==> (tree is Some && exists|i: int|
            0 <= i < tree.unwrap().len() && (#[trigger] tree.unwrap()[i]).0 == "web"@),
        forall|k: CredentialKeys|
            client_secret_keys_of(tree).installed == Some(k) ==> (k.has_client_id ==> exists|
                ks: Seq<Seq<char>>,
            | member_of(tree.unwrap(), "installed"@) == Some(Some(ks)) && ks.contains(
                "client_id"@,
            )),
        forall|k: CredentialKeys|
            client_secret_keys_of(tree).web == Some(k) ==> (k.has_client_secret ==> exists|
                ks: Seq<Seq<char>>,
            | member_of(tree.unwrap(), "web"@) == Some(Some(ks)) && ks.contains(
                "client_secret"@,
            )),
{
    if let Some(ms) = tree {
        lemma_member_of_finds_first(ms, "installed"@);
        lemma_member_of_finds_first(ms, "web"@);
    }
}

fn find_member(members: &Vec<JsonMember>, key: &str) -> (found: Option<usize>)
    ensures
        match member_of(members@.map_values(|m: JsonMember| member_view(m)), key@) {
            None => found is None,
            Some(value) => found matches Some(i) && i < members@.len() && member_view(
                members@[i as int],
            ).1 == value,
        },
{
    let ghost all = members@.map_values(|m: JsonMember| member_view(m));
    let wanted = String::from_str(key);
    let n = members.len();
    let mut i: usize = 0;
    assert(all.skip(0) =~= all);
    while i < n
        invariant
            n == members@.len(),
            all == members@.map_values(|m: JsonMember| member_view(m)),
            wanted@ == key@,
            i <= n,
            member_of(all, key@) == member_of(all.skip(i as int), key@),
        decreases n - i,
    {
        assert(all.skip(i as int)[0] == member_view(members@[i as int]));
        if members[i].key == wanted {
            return Some(i);
        }
        assert(all.skip(i as int).drop_first() =~= all.skip(i + 1));
        i = i + 1;
    }
    assert(all.skip(n as int) =~= Seq::<JsonMemberText>::empty());
    None
}

fn has_key(keys: &Vec<String>, key: &str) -> (found: bool)
    ensures
        found == strings_view(*keys).contains(key@),
{
    let ghost texts = strings_view(*keys);
    let wanted = String::from_str(key);
    let n = keys.len();
    for i in 0..n
        invariant
            n == keys@.len(),
            texts == strings_view(*keys),
            wanted@ == key@,
            forall|j: int| 0 <= j < i ==> texts[j] != key@,
    {
        assert(texts[i as int] == keys@[i as int]@);
        if keys[i] == wanted {
            return true;
        }
    }
    false
}

fn section_keys(tree: &Vec<JsonMember>, key: &str) -> (section: Option<CredentialKeys>)
    ensures
        section == section_of(key_tree_view(Some(*tree)), key@),
{
    proof {
        reveal_strlit("client_id");
        reveal_strlit("client_secret");
    }
    match find_member(tree, key) {
        None => None,
        Some(i) => match &tree[i].member_keys {
            None => Some(CredentialKeys { has_client_id: false, has_client_secret: false }),
            Some(keys) => Some(
                CredentialKeys {
                    has_client_id: has_key(keys, "client_id"),
                    has_client_secret: has_key(keys, "client_secret"),
                },
            ),
        },
    }
}

/// Picks out of a parsed client secret file the keys that the program
/// reads: the `installed` and `web` sections, and in each whether
/// `client_id` and `client_secret` are there. Where the file does not hold
/// an object there are no sections.
pub fn client_secret_keys(tree: &Option<Vec<JsonMember>>) -> (keys: ClientSecretKeys)
    ensures
        keys == client_secret_keys_of(key_tree_view(*tree)),
{
    match tree {
        None => ClientSecretKeys { installed: None, web: None },
        Some(members) => ClientSecretKeys {
            installed: section_keys(members, "installed"),
            web: section_keys(members, "web"),
        },
    }
}

/// Judges the text of a client secret file: text that is not JSON is
/// refused with the parser's message; otherwise the keys it holds are
/// judged as `classify_client_secret` does.
pub fn judge_client_secret_text(content: &str) -> (state: ClientSecretState)
    ensures
        match json_key_tree(content@) {
            None => state is InvalidJson,
            Some(tree) => state == client_secret_state_of(client_secret_keys_of(tree)),
        },
{
    match parse_json_key_tree(content) {
        Ok(tree) => classify_client_secret(&client_secret_keys(&tree)),
        Err(message) => ClientSecretState::InvalidJson(message),
    }
}

/// The verdict on a client secret file: the `installed` section is judged
/// where there is one, else the `web` section; the file is valid exactly
/// when that section holds both `client_id` and `client_secret`, lacks a
/// section exactly when it has neither, and otherwise lacks credentials.
pub proof fn lemma_client_secret_verdict(keys: ClientSecretKeys)
    ensures
        client_secret_state_of(keys) is Valid <==> {
            ||| keys.installed matches Some(c) && c.has_client_id && c.has_client_secret
            ||| keys.installed is None && (keys.web matches Some(c) && c.has_client_id
                && c.has_client_secret)
        },
        client_secret_state_of(keys) is MissingSection <==> keys.installed is None
            && keys.web is None,
        client_secret_state_of(keys) is MissingCredentials <==> {
            ||| keys.installed matches Some(c) && !(c.has_client_id && c.has_client_secret)
            ||| keys.installed is None && (keys.web matches Some(c) && !(c.has_client_id
                && c.has_client_secret))
        },
{
}

/// The configuration is ready for sending: both directories exist and the
/// client secret is valid. The token cache plays no part: it is made on
/// the first run.
pub open spec fn configuration_ok_of(
    config_dir: PathState,
    data_dir: PathState,
    client_secret: ClientSecretState,
) -> bool {
    &&& !(config_dir is Missing)
    &&& !(data_dir is Missing)
    &&& client_secret is Valid
}

/// `config check` passes exactly when both directories exist and the
/// client secret is valid: any other verdict on the client secret (not
/// found, unreadable, not JSON, no section, missing credentials) fails it,
/// whatever the directories and the token cache look like.
pub proof fn lemma_configuration_verdict(
    config_dir: PathState,
    data_dir: PathState,
    client_secret: ClientSecretState,
)
    ensures
        configuration_ok_of(config_dir, data_dir, client_secret) <==> !(config_dir is Missing)
            && !(data_dir is Missing) && client_secret is Valid,
        !(client_secret is Valid) ==> !configuration_ok_of(config_dir, data_dir, client_secret),
{
}

/// Whether the configuration check passes as a whole.
pub fn configuration_ok(
    config_dir: &PathState,
    data_dir: &PathState,
    client_secret: &ClientSecretState,
) -> (ok: bool)
    ensures
        ok == configuration_ok_of(*config_dir, *data_dir, *client_secret),
        ok <==> !(*config_dir is Missing) && !(*data_dir is Missing) && *client_secret is Valid,
{
    let dirs_ok = !matches!(config_dir, PathState::Missing) && !matches!(data_dir, PathState::Missing);
    dirs_ok && matches!(client_secret, ClientSecretState::Valid)
}

} // verus!
