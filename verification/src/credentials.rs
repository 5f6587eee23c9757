//! Credentials and secrets: which values of the host a sandbox is given, and which
//! declarations may not touch them.
//!
//! Values come from the host, one at a time. What is asked for next, and what comes
//! of it, is decided from the answers so far.

use vstd::prelude::*;
use vstd::string::*;

use crate::collect::duplicate_strings;
use crate::config::{AgentConfig, Config, CredentialConfig, ResolvedSandbox};
use crate::order::{before, copy_texts, lists_in_order, StringMap};
use crate::task::copy_text;
use crate::text::{among, begins, cat3, chars_of, holds, lemma_holds_within, string_of};

verus! {

// ---------------------------------------------------------------------------
// Credentials
// ---------------------------------------------------------------------------

/// Where a credential comes from.
#[derive(Debug, PartialEq, Eq)]
pub enum CredentialSource {
    Env(String),
    Secret(String),
    Command(String),
}

/// What a [`CredentialSource`] says.
pub enum SourceView {
    Env(Seq<char>),
    Secret(Seq<char>),
    Command(Seq<char>),
}

impl View for CredentialSource {
    type V = SourceView;

    open spec fn view(&self) -> SourceView {
        match *self {
            CredentialSource::Env(name) => SourceView::Env(name@),
            CredentialSource::Secret(name) => SourceView::Secret(name@),
            CredentialSource::Command(command) => SourceView::Command(command@),
        }
    }
}

/// Where a credential goes.
#[derive(Debug, PartialEq, Eq)]
pub enum CredentialTarget {
    Env(String),
    File(String),
}

/// What a [`CredentialTarget`] says.
pub enum TargetView {
    Env(Seq<char>),
    File(Seq<char>),
}

impl View for CredentialTarget {
    type V = TargetView;

    open spec fn view(&self) -> TargetView {
        match *self {
            CredentialTarget::Env(name) => TargetView::Env(name@),
            CredentialTarget::File(path) => TargetView::File(path@),
        }
    }
}

/// What a [`CredentialConfig`] says.
pub struct CredentialView {
    pub from_env: Option<Seq<char>>,
    pub from_secret: Option<Seq<char>>,
    pub command: Option<Seq<char>>,
    pub env: Option<Seq<char>>,
    pub file: Option<Seq<char>>,
}

impl View for CredentialConfig {
    type V = CredentialView;

    open spec fn view(&self) -> CredentialView {
        CredentialView {
            from_env: self.from_env.deep_view(),
            from_secret: self.from_secret.deep_view(),
            command: self.command.deep_view(),
            env: self.env.deep_view(),
            file: self.file.deep_view(),
        }
    }
}

pub const ONE_SOURCE: &'static str = "a credential needs exactly one source: from_env, from_secret or command";

pub const ONE_TARGET: &'static str = "a credential needs exactly one target: env or file";

impl CredentialView {
    /// The one source that is declared.
    pub open spec fn source(self) -> Option<SourceView> {
        match (self.from_env, self.from_secret, self.command) {
            (Some(name), None, None) => Some(SourceView::Env(name)),
            (None, Some(name), None) => Some(SourceView::Secret(name)),
            (None, None, Some(command)) => Some(SourceView::Command(command)),
            _ => None,
        }
    }

    /// The one target that is declared.
    pub open spec fn target(self) -> Option<TargetView> {
        match (self.env, self.file) {
            (Some(name), None) => Some(TargetView::Env(name)),
            (None, Some(path)) => Some(TargetView::File(path)),
            _ => None,
        }
    }
}

impl CredentialConfig {
    /// The source of the credential. Anything but one is refused.
    pub fn source(&self) -> (source: Result<CredentialSource, String>)
        ensures
            match source {
                Ok(source) => self@.source() == Some(source@),
                Err(text) => self@.source() is None && text@ == ONE_SOURCE@,
            },
    {
        match (&self.from_env, &self.from_secret, &self.command) {
            (Some(name), None, None) => Ok(CredentialSource::Env(name.clone())),
            (None, Some(name), None) => Ok(CredentialSource::Secret(name.clone())),
            (None, None, Some(command)) => Ok(CredentialSource::Command(command.clone())),
            _ => Err(ONE_SOURCE.to_owned()),
        }
    }

    /// The target of the credential. Anything but one is refused.
    pub fn target(&self) -> (target: Result<CredentialTarget, String>)
        ensures
            match target {
                Ok(target) => self@.target() == Some(target@),
                Err(text) => self@.target() is None && text@ == ONE_TARGET@,
            },
    {
        match (&self.env, &self.file) {
            (Some(name), None) => Ok(CredentialTarget::Env(name.clone())),
            (None, Some(path)) => Ok(CredentialTarget::File(path.clone())),
            _ => Err(ONE_TARGET.to_owned()),
        }
    }
}

fn copy_credential(credential: &CredentialConfig) -> (copy: CredentialConfig)
    ensures
        copy@ == credential@,
{
    CredentialConfig {
        from_env: copy_text(&credential.from_env),
        from_secret: copy_text(&credential.from_secret),
        command: copy_text(&credential.command),
        env: copy_text(&credential.env),
        file: copy_text(&credential.file),
    }
}

/// What a list of credentials says.
pub open spec fn credential_views(credentials: Seq<CredentialConfig>) -> Seq<CredentialView> {
    Seq::new(credentials.len(), |i: int| credentials[i]@)
}

/// The credential that the older form of the declaration stands for.
pub open spec fn single_token(agent: &AgentConfig) -> Seq<CredentialView> {
    match agent.auth_token_env {
        Some(name) => seq![
            CredentialView {
                from_env: Some(name@),
                from_secret: None,
                command: None,
                env: Some(
                    match agent.auth_token_target {
                        Some(target) => target@,
                        None => name@,
                    },
                ),
                file: None,
            },
        ],
        None => Seq::empty(),
    }
}

/// All credentials of an agent: those that are listed, and the one in the older form.
/// The latter goes to the variable that it comes from, where no other is named.
pub open spec fn all_credentials(agent: &AgentConfig) -> Seq<CredentialView> {
    credential_views(agent.credentials@) + single_token(agent)
}

impl AgentConfig {
    /// All credentials of the agent.
    pub fn effective_credentials(&self) -> (credentials: Vec<CredentialConfig>)
        ensures
            credential_views(credentials@) == all_credentials(self),
    {
        let mut credentials: Vec<CredentialConfig> = Vec::new();
        let mut i: usize = 0;
        while i < self.credentials.len()
            invariant
                i == credentials@.len(),
                i <= self.credentials@.len(),
                forall|j: int| 0 <= j < i ==> (#[trigger] credentials@[j])@ == self.credentials@[j]@,
            decreases self.credentials@.len() - i,
        {
            credentials.push(copy_credential(&self.credentials[i]));
            i += 1;
        }
        assert(credential_views(credentials@) =~= credential_views(self.credentials@));
        let ghost listed = credentials@;
        if let Some(name) = &self.auth_token_env {
            let target = match &self.auth_token_target {
                Some(target) => target.clone(),
                None => name.clone(),
            };
            credentials.push(
                CredentialConfig {
                    from_env: Some(name.clone()),
                    from_secret: None,
                    command: None,
                    env: Some(target),
                    file: None,
                },
            );
            assert(credential_views(credentials@) =~= credential_views(listed) + single_token(self));
        }
        assert(credential_views(credentials@) =~= all_credentials(self));
        credentials
    }
}

/// What the host answered.
#[derive(Debug, PartialEq, Eq)]
pub enum HostAnswer {
    /// There is no such variable.
    Unset,
    Value(String),
    /// The value could not be had.
    Failed,
}

/// The value that an answer comes to. A variable that is unset or empty is skipped;
/// a secret or a command that yields nothing is refused.
pub open spec fn credential_value(source: SourceView, answer: HostAnswer) -> Result<Option<Seq<char>>, Seq<char>> {
    match source {
        SourceView::Env(_) => match answer {
            HostAnswer::Value(value) => if value@.len() > 0 {
                Ok(Some(value@))
            } else {
                Ok(None)
            },
            _ => Ok(None),
        },
        SourceView::Secret(name) => match answer {
            HostAnswer::Value(value) => if value@.len() > 0 {
                Ok(Some(value@))
            } else {
                Err("secret '"@ + name + "' resolved to an empty value on the host"@)
            },
            _ => Err("failed to resolve secret '"@ + name + "' from the host secret store (`fnox get "@ + name + "`)"@),
        },
        SourceView::Command(command) => match answer {
            HostAnswer::Value(value) => if value@.len() > 0 {
                Ok(Some(value@))
            } else {
                Err("credential command produced empty output on the host: "@ + command)
            },
            _ => Err("credential command failed on the host: "@ + command),
        },
    }
}

/// The value that an answer comes to.
pub fn resolve_credential_value(source: &CredentialSource, answer: &HostAnswer) -> (value: Result<
    Option<String>,
    String,
>)
    ensures
        match value {
            Ok(value) => credential_value(source@, *answer) == Ok::<Option<Seq<char>>, Seq<char>>(value.deep_view()),
            Err(text) => credential_value(source@, *answer) == Err::<Option<Seq<char>>, Seq<char>>(text@),
        },
{
    if let HostAnswer::Value(value) = answer {
        if !value.as_str().is_empty() {
            return Ok(Some(value.clone()));
        }
    }
    match source {
        CredentialSource::Env(_) => Ok(None),
        CredentialSource::Secret(name) => match answer {
            HostAnswer::Value(_) => Err(
                cat3("secret '", name.as_str(), "' resolved to an empty value on the host"),
            ),
            _ => Err(
                "failed to resolve secret '".to_owned().concat(name.as_str()).concat(
                    "' from the host secret store (`fnox get ",
                ).concat(name.as_str()).concat("`)"),
            ),
        },
        CredentialSource::Command(command) => match answer {
            HostAnswer::Value(_) => Err(
                "credential command produced empty output on the host: ".to_owned().concat(command.as_str()),
            ),
            _ => Err("credential command failed on the host: ".to_owned().concat(command.as_str())),
        },
    }
}

/// Where gathering an agent's credentials stands.
#[derive(Debug)]
pub enum CredentialStep {
    /// The host is to be asked for this.
    Ask(CredentialSource),
    /// The variables and the files of the sandbox, with their values.
    Done(StringMap<String>, StringMap<String>),
    /// The run may not start.
    Refused(String),
}

/// What a map to strings says.
pub open spec fn texts(map: Map<Seq<char>, String>) -> Map<Seq<char>, Seq<char>> {
    map.map_values(|value: String| value@)
}

/// What a [`CredentialStep`] says.
pub enum CredentialStepView {
    Ask(SourceView),
    Done(Map<Seq<char>, Seq<char>>, Map<Seq<char>, Seq<char>>),
    Refused(Seq<char>),
}

impl View for CredentialStep {
    type V = CredentialStepView;

    open spec fn view(&self) -> CredentialStepView {
        match *self {
            CredentialStep::Ask(source) => CredentialStepView::Ask(source@),
            CredentialStep::Done(env, files) => CredentialStepView::Done(texts(env@), texts(files@)),
            CredentialStep::Refused(text) => CredentialStepView::Refused(text@),
        }
    }
}

/// Where gathering credentials stands after `answers`, the first `n` credentials
/// having come to `env` and `files`. A credential goes to its target once the host
/// has answered; of two with one target the later one counts.
pub open spec fn gathered(
    credentials: Seq<CredentialView>,
    answers: Seq<HostAnswer>,
    n: int,
    env: Map<Seq<char>, Seq<char>>,
    files: Map<Seq<char>, Seq<char>>,
) -> CredentialStepView
    decreases credentials.len() - n,
{
    if n >= credentials.len() {
        CredentialStepView::Done(env, files)
    } else {
        match (credentials[n].source(), credentials[n].target()) {
            (None, _) => CredentialStepView::Refused(ONE_SOURCE@),
            (Some(_), None) => CredentialStepView::Refused(ONE_TARGET@),
            (Some(source), Some(target)) => if n >= answers.len() {
                CredentialStepView::Ask(source)
            } else {
                match credential_value(source, answers[n]) {
                    Err(text) => CredentialStepView::Refused(text),
                    Ok(None) => gathered(credentials, answers, n + 1, env, files),
                    Ok(Some(value)) => match target {
                        TargetView::Env(name) => gathered(credentials, answers, n + 1, env.insert(name, value), files),
                        TargetView::File(path) => gathered(
                            credentials,
                            answers,
                            n + 1,
                            env,
                            files.insert(path, value),
                        ),
                    },
                }
            },
        }
    }
}

/// Decides what comes after the host's `answers` about an agent's credentials.
pub fn resolve_agent_credentials(agent: &AgentConfig, answers: &Vec<HostAnswer>) -> (step: CredentialStep)
    ensures
        step@ == gathered(all_credentials(agent), answers@, 0, Map::empty(), Map::empty()),
{
    let credentials = agent.effective_credentials();
    let ghost all = credential_views(credentials@);
    let mut env: StringMap<String> = StringMap::new();
    let mut files: StringMap<String> = StringMap::new();
    let mut n: usize = 0;
    assert(texts(env@) =~= Map::empty());
    assert(texts(files@) =~= Map::empty());
    while n < credentials.len()
        invariant
            all == credential_views(credentials@),
            all == all_credentials(agent),
            n <= credentials@.len(),
            gathered(all, answers@, 0, Map::empty(), Map::empty()) == gathered(
                all,
                answers@,
                n as int,
                texts(env@),
                texts(files@),
            ),
        decreases credentials@.len() - n,
    {
        assert(all[n as int] == credentials@[n as int]@);
        let source = match credentials[n].source() {
            Ok(source) => source,
            Err(text) => {
                return CredentialStep::Refused(text);
            },
        };
        let target = match credentials[n].target() {
            Ok(target) => target,
            Err(text) => {
                return CredentialStep::Refused(text);
            },
        };
        if n >= answers.len() {
            return CredentialStep::Ask(source);
        }
        match resolve_credential_value(&source, &answers[n]) {
            Err(text) => {
                return CredentialStep::Refused(text);
            },
            Ok(None) => {},
            Ok(Some(value)) => match target {
                CredentialTarget::Env(name) => {
                    let ghost before = env@;
                    let ghost entry = (name@, value@);
                    env.insert(name, value);
                    assert(texts(env@) =~= texts(before).insert(entry.0, entry.1));
                },
                CredentialTarget::File(path) => {
                    let ghost before = files@;
                    let ghost entry = (path@, value@);
                    files.insert(path, value);
                    assert(texts(files@) =~= texts(before).insert(entry.0, entry.1));
                },
            },
        }
        n += 1;
    }
    CredentialStep::Done(env, files)
}

// ---------------------------------------------------------------------------
// Commands of the host
// ---------------------------------------------------------------------------

/// The program of the host that yields a credential, and its arguments. A variable
/// takes none.
pub open spec fn host_command_of(source: SourceView) -> Option<(Seq<char>, Seq<Seq<char>>)> {
    match source {
        SourceView::Env(_) => None,
        SourceView::Secret(name) => Some(("fnox"@, seq!["get"@, name])),
        SourceView::Command(command) => Some(("sh"@, seq!["-c"@, command])),
    }
}

/// The program of the host that yields a credential, and its arguments.
pub fn host_command(source: &CredentialSource) -> (command: Option<(String, Vec<String>)>)
    ensures
        match command {
            Some((program, args)) => host_command_of(source@) == Some((program@, args.deep_view())),
            None => host_command_of(source@) is None,
        },
{
    let (program, flag, word) = match source {
        CredentialSource::Env(_) => {
            return None;
        },
        CredentialSource::Secret(name) => ("fnox", "get", name),
        CredentialSource::Command(command) => ("sh", "-c", command),
    };
    let mut args: Vec<String> = Vec::new();
    args.push(flag.to_owned());
    args.push(word.clone());
    assert(args.deep_view() =~= seq![flag@, word@]);
    Some((program.to_owned(), args))
}

/// What a program printed, without the line ends at its end.
pub open spec fn without_line_ends(text: Seq<char>) -> Seq<char>
    decreases text.len(),
{
    if text.len() > 0 && (text.last() == '\n' || text.last() == '\r') {
        without_line_ends(text.drop_last())
    } else {
        text
    }
}

/// The value that a program printed.
pub fn printed_value(stdout: &str) -> (value: String)
    ensures
        value@ == without_line_ends(stdout@),
{
    let chars = chars_of(stdout);
    let mut to: usize = chars.len();
    assert(chars@.take(to as int) =~= chars@);
    while to > 0 && (chars[to - 1] == '\n' || chars[to - 1] == '\r')
        invariant
            to <= chars@.len(),
            without_line_ends(chars@.take(to as int)) == without_line_ends(chars@),
        decreases to,
    {
        assert(chars@.take(to as int).drop_last() =~= chars@.take(to - 1));
        to -= 1;
    }
    let value = string_of(&chars, 0, to);
    assert(value@ =~= chars@.take(to as int));
    value
}

// ---------------------------------------------------------------------------
// Secrets in the environment
// ---------------------------------------------------------------------------

/// The name of the secret that a value stands for: the value is `${fnox:NAME}`.
pub open spec fn secret_name(value: Seq<char>) -> Option<Seq<char>> {
    let lead = "${fnox:"@;
    if begins(value, lead) && value.len() > lead.len() + 1 && value.last() == '}' {
        Some(value.subrange(lead.len() as int, value.len() - 1))
    } else {
        None
    }
}

/// The name of the secret that a value stands for.
pub fn fnox_env_ref(value: &str) -> (secret: Option<String>)
    ensures
        secret.deep_view() == secret_name(value@),
{
    let lead = "${fnox:";
    let chars = chars_of(value);
    let lead_chars = chars_of(lead);
    let from: usize = lead_chars.len();
    if crate::text::starts_with(value, lead) && chars.len() - from > 1 && chars[chars.len() - 1] == '}' {
        Some(string_of(&chars, from, chars.len() - 1))
    } else {
        None
    }
}

/// Where resolving the secrets of an environment stands.
#[derive(Debug)]
pub enum SecretStep {
    /// The host is to be asked for the secret that stands under this key.
    Ask(String, String),
    /// The environment, every secret being replaced by its value.
    Done(StringMap<String>),
    /// The run may not start.
    Refused(String),
}

/// What a [`SecretStep`] says.
pub enum SecretStepView {
    Ask(Seq<char>, Seq<char>),
    Done(Map<Seq<char>, Seq<char>>),
    Refused(Seq<char>),
}

impl View for SecretStep {
    type V = SecretStepView;

    open spec fn view(&self) -> SecretStepView {
        match *self {
            SecretStep::Ask(key, secret) => SecretStepView::Ask(key@, secret@),
            SecretStep::Done(env) => SecretStepView::Done(texts(env@)),
            SecretStep::Refused(text) => SecretStepView::Refused(text@),
        }
    }
}

/// The report of a secret that an untrusted file asks for.
pub open spec fn untrusted_secret_text(key: Seq<char>, secret: Seq<char>) -> Seq<char> {
    "env key '"@ + key + "' from an untrusted `.varda` binds fnox secret '"@ + secret
        + "'; fnox env bindings are only allowed from trusted central config"@
}

/// The value that an answer about the secret under `key` comes to.
pub open spec fn secret_value(key: Seq<char>, secret: Seq<char>, answer: HostAnswer) -> Result<Seq<char>, Seq<char>> {
    match answer {
        HostAnswer::Value(value) => if value@.len() > 0 {
            Ok(value@)
        } else {
            Err("env '"@ + key + "' fnox secret '"@ + secret + "' resolved to an empty value on the host"@)
        },
        _ => Err("failed to resolve env '"@ + key + "' from the host secret store (`fnox get "@ + secret + "`)"@),
    }
}

/// Where resolving stands after the keys from `keys[n]` on are still to be looked at,
/// `asked` answers having been used. Keys are taken in order; a value that stands for
/// no secret is left as it is, and a secret under an untrusted key is refused before
/// the host is asked.
pub open spec fn resolved(
    keys: Seq<Seq<char>>,
    untrusted: Seq<Seq<char>>,
    answers: Seq<HostAnswer>,
    n: int,
    asked: int,
    env: Map<Seq<char>, Seq<char>>,
) -> SecretStepView
    decreases keys.len() - n,
{
    if n >= keys.len() {
        SecretStepView::Done(env)
    } else {
        let key = keys[n];
        match secret_name(env[key]) {
            None => resolved(keys, untrusted, answers, n + 1, asked, env),
            Some(secret) => if untrusted.contains(key) {
                SecretStepView::Refused(untrusted_secret_text(key, secret))
            } else if asked >= answers.len() {
                SecretStepView::Ask(key, secret)
            } else {
                match secret_value(key, secret, answers[asked]) {
                    Err(text) => SecretStepView::Refused(text),
                    Ok(value) => resolved(keys, untrusted, answers, n + 1, asked + 1, env.insert(key, value)),
                }
            },
        }
    }
}

/// Decides what comes after the host's `answers` about the secrets of an environment.
pub fn resolve_env_secrets(env: &StringMap<String>, untrusted_keys: &Vec<String>, answers: &Vec<HostAnswer>) -> (step:
    SecretStep)
    ensures
        step@ == resolved(env.keys(), untrusted_keys.deep_view(), answers@, 0, 0, texts(env@)),
{
    let ghost keys = env.keys();
    let ghost untrusted = untrusted_keys.deep_view();
    let count = env.len();
    let mut values = copy_texts(env);
    assert(texts(values@) =~= texts(env@));
    let mut n: usize = 0;
    let mut asked: usize = 0;
    while n < count
        invariant
            keys == env.keys(),
            untrusted == untrusted_keys.deep_view(),
            count == keys.len(),
            n <= count,
            asked <= answers@.len(),
            values@.dom() == env@.dom(),
            forall|k: Seq<char>| #[trigger] env@.dom().contains(k) <==> env.keys().contains(k),
            resolved(keys, untrusted, answers@, 0, 0, texts(env@)) == resolved(
                keys,
                untrusted,
                answers@,
                n as int,
                asked as int,
                texts(values@),
            ),
        decreases count - n,
    {
        let key = env.key_at(n);
        assert(keys.contains(keys[n as int]));
        let current = match values.get(key.as_str()) {
            Some(current) => current.clone(),
            None => String::new(),
        };
        assert(texts(values@)[key@] == current@);
        if let Some(secret) = fnox_env_ref(current.as_str()) {
            if among(untrusted_keys, key.as_str()) {
                return SecretStep::Refused(
                    "env key '".to_owned().concat(key.as_str()).concat(
                        "' from an untrusted `.varda` binds fnox secret '",
                    ).concat(secret.as_str()).concat(
                        "'; fnox env bindings are only allowed from trusted central config",
                    ),
                );
            }
            if asked >= answers.len() {
                return SecretStep::Ask(key.clone(), secret);
            }
            match &answers[asked] {
                HostAnswer::Value(value) => {
                    if value.as_str().is_empty() {
                        return SecretStep::Refused(
                            "env '".to_owned().concat(key.as_str()).concat("' fnox secret '").concat(
                                secret.as_str(),
                            ).concat("' resolved to an empty value on the host"),
                        );
                    }
                    let ghost before = values@;
                    values.insert(key.clone(), value.clone());
                    assert(texts(values@) =~= texts(before).insert(key@, value@));
                    assert(values@.dom() =~= env@.dom());
                },
                _ => {
                    return SecretStep::Refused(
                        "failed to resolve env '".to_owned().concat(key.as_str()).concat(
                            "' from the host secret store (`fnox get ",
                        ).concat(secret.as_str()).concat("`)"),
                    );
                },
            }
            asked += 1;
        }
        n += 1;
    }
    SecretStep::Done(values)
}

// ---------------------------------------------------------------------------
// What a `.varda` file may not declare
// ---------------------------------------------------------------------------

/// The file that a declaration comes from, as reports name it.
pub open spec fn declared_at(resolved: &ResolvedSandbox) -> Seq<char> {
    match resolved.varda_file {
        Some(path) => path@,
        None => ".varda"@,
    }
}

/// The variable that a credential goes to.
pub open spec fn env_target(credential: CredentialView) -> Option<Seq<char>> {
    match credential.target() {
        Some(TargetView::Env(name)) => Some(name),
        _ => None,
    }
}

/// The first of `credentials` whose variable is among `keys`.
pub open spec fn shadowed_credential(credentials: Seq<CredentialView>, keys: Seq<Seq<char>>) -> Option<Seq<char>>
    decreases credentials.len(),
{
    if credentials.len() == 0 {
        None
    } else {
        match env_target(credentials[0]) {
            Some(name) => if keys.contains(name) {
                Some(name)
            } else {
                shadowed_credential(credentials.drop_first(), keys)
            },
            None => shadowed_credential(credentials.drop_first(), keys),
        }
    }
}

/// The first of `keys` that the agent's own environment has.
pub open spec fn shadowed_env(keys: Seq<Seq<char>>, env: Set<Seq<char>>) -> Option<Seq<char>>
    decreases keys.len(),
{
    if keys.len() == 0 {
        None
    } else if env.contains(keys[0]) {
        Some(keys[0])
    } else {
        shadowed_env(keys.drop_first(), env)
    }
}

/// Why the declarations of a `.varda` file are refused: one would take the place of a
/// credential, or of a variable of the agent.
pub open spec fn floor_fault(agent: &AgentConfig, resolved: &ResolvedSandbox) -> Option<Seq<char>> {
    let keys = resolved.varda_env_keys.deep_view();
    match shadowed_credential(all_credentials(agent), keys) {
        Some(name) => Some(
            "`.varda` at "@ + declared_at(resolved) + " declares env key '"@ + name
                + "', which would override credential injection"@,
        ),
        None => match shadowed_env(keys, agent.env@.dom()) {
            Some(key) => Some(
                "`.varda` at "@ + declared_at(resolved) + " declares env key '"@ + key
                    + "', which would override trusted agent env"@,
            ),
            None => None,
        },
    }
}

fn origin_of(resolved: &ResolvedSandbox) -> (origin: &str)
    ensures
        origin@ == declared_at(resolved),
{
    match &resolved.varda_file {
        Some(path) => path.as_str(),
        None => ".varda",
    }
}

/// Refuses a `.varda` file that would take the place of a credential or of a variable
/// of the agent.
pub fn enforce_varda_env_credential_floor(agent: &AgentConfig, resolved: &ResolvedSandbox) -> (verdict: Result<
    (),
    String,
>)
    ensures
        match verdict {
            Ok(()) => floor_fault(agent, resolved) is None,
            Err(text) => floor_fault(agent, resolved) == Some(text@),
        },
{
    let keys = &resolved.varda_env_keys;
    let credentials = agent.effective_credentials();
    let ghost all = credential_views(credentials@);
    let mut i: usize = 0;
    assert(all.skip(0) =~= all);
    while i < credentials.len()
        invariant
            all == credential_views(credentials@),
            all == all_credentials(agent),
            *keys == resolved.varda_env_keys,
            i <= credentials@.len(),
            shadowed_credential(all, keys.deep_view()) == shadowed_credential(all.skip(i as int), keys.deep_view()),
        decreases credentials@.len() - i,
    {
        assert(all.skip(i as int)[0] == credentials@[i as int]@);
        assert(all.skip(i as int).drop_first() =~= all.skip(i + 1));
        if let Ok(CredentialTarget::Env(target)) = credentials[i].target() {
            if among(keys, target.as_str()) {
                return Err(
                    "`.varda` at ".to_owned().concat(origin_of(resolved)).concat(" declares env key '").concat(
                        target.as_str(),
                    ).concat("', which would override credential injection"),
                );
            }
        }
        i += 1;
    }
    let ghost names = keys.deep_view();
    let mut j: usize = 0;
    assert(names.skip(0) =~= names);
    while j < keys.len()
        invariant
            *keys == resolved.varda_env_keys,
            names == keys.deep_view(),
            j <= keys@.len(),
            shadowed_credential(all_credentials(agent), names) is None,
            shadowed_env(names, agent.env@.dom()) == shadowed_env(names.skip(j as int), agent.env@.dom()),
        decreases keys@.len() - j,
    {
        assert(names.skip(j as int)[0] == keys@[j as int]@);
        assert(names.skip(j as int).drop_first() =~= names.skip(j + 1));
        if agent.env.contains(keys[j].as_str()) {
            return Err(
                "`.varda` at ".to_owned().concat(origin_of(resolved)).concat(" declares env key '").concat(
                    keys[j].as_str(),
                ).concat("', which would override trusted agent env"),
            );
        }
        j += 1;
    }
    Ok(())
}

/// Resolving the secrets of an environment keeps its keys, and every value that
/// stands for no secret.
pub proof fn law_plain_values_are_untouched(
    keys: Seq<Seq<char>>,
    untrusted: Seq<Seq<char>>,
    answers: Seq<HostAnswer>,
    n: int,
    asked: int,
    env: Map<Seq<char>, Seq<char>>,
)
    requires
        0 <= n,
        forall|i: int| 0 <= i < keys.len() ==> env.dom().contains(#[trigger] keys[i]),
        forall|i: int, j: int| 0 <= i < j < keys.len() ==> #[trigger] keys[i] != #[trigger] keys[j],
    ensures
        resolved(keys, untrusted, answers, n, asked, env) matches SecretStepView::Done(out) ==> {
            &&& out.dom() == env.dom()
            &&& forall|k: Seq<char>|
                env.dom().contains(k) && secret_name(env[k]) is None ==> #[trigger] out[k] == env[k]
        },
    decreases keys.len() - n,
{
    if n < keys.len() {
        let key = keys[n];
        match secret_name(env[key]) {
            None => {
                law_plain_values_are_untouched(keys, untrusted, answers, n + 1, asked, env);
            },
            Some(secret) => {
                if !untrusted.contains(key) && asked < answers.len() {
                    if let Ok(value) = secret_value(key, secret, answers[asked]) {
                        let next = env.insert(key, value);
                        law_plain_values_are_untouched(keys, untrusted, answers, n + 1, asked + 1, next);
                        if let SecretStepView::Done(out) = resolved(keys, untrusted, answers, n, asked, env) {
                            assert(next.dom() =~= env.dom());
                            assert forall|k: Seq<char>|
                                env.dom().contains(k) && secret_name(env[k]) is None implies #[trigger] out[k]
                                == env[k] by {
                                assert(k != key);
                                assert(next[k] == env[k]);
                                assert(next.dom().contains(k));
                            }
                        }
                    }
                }
            },
        }
    }
}

/// The host is never asked for a secret on behalf of an untrusted key.
pub proof fn law_untrusted_keys_get_no_secret(
    keys: Seq<Seq<char>>,
    untrusted: Seq<Seq<char>>,
    answers: Seq<HostAnswer>,
    n: int,
    asked: int,
    env: Map<Seq<char>, Seq<char>>,
)
    ensures
        resolved(keys, untrusted, answers, n, asked, env) matches SecretStepView::Ask(key, _) ==> !untrusted.contains(
            key,
        ),
    decreases keys.len() - n,
{
    if n < keys.len() {
        let key = keys[n];
        match secret_name(env[key]) {
            None => {
                law_untrusted_keys_get_no_secret(keys, untrusted, answers, n + 1, asked, env);
            },
            Some(secret) => {
                if !untrusted.contains(key) && asked < answers.len() {
                    if let Ok(value) = secret_value(key, secret, answers[asked]) {
                        law_untrusted_keys_get_no_secret(
                            keys,
                            untrusted,
                            answers,
                            n + 1,
                            asked + 1,
                            env.insert(key, value),
                        );
                    }
                }
            },
        }
    }
}

/// Where a `.varda` file is not refused, it declares no variable that a credential
/// goes to, nor one of the agent's own.
pub proof fn law_the_floor_holds(agent: &AgentConfig, resolved: &ResolvedSandbox, key: Seq<char>)
    requires
        floor_fault(agent, resolved) is None,
        resolved.varda_env_keys.deep_view().contains(key),
    ensures
        !agent.env@.dom().contains(key),
        forall|i: int|
            0 <= i < all_credentials(agent).len() ==> env_target(#[trigger] all_credentials(agent)[i]) != Some(key),
{
    lemma_shadowed_credential(all_credentials(agent), resolved.varda_env_keys.deep_view(), key);
    lemma_shadowed_env(resolved.varda_env_keys.deep_view(), agent.env@.dom(), key);
}

proof fn lemma_shadowed_credential(credentials: Seq<CredentialView>, keys: Seq<Seq<char>>, key: Seq<char>)
    requires
        shadowed_credential(credentials, keys) is None,
        keys.contains(key),
    ensures
        forall|i: int| 0 <= i < credentials.len() ==> env_target(#[trigger] credentials[i]) != Some(key),
    decreases credentials.len(),
{
    if credentials.len() > 0 {
        let rest = credentials.drop_first();
        lemma_shadowed_credential(rest, keys, key);
        assert forall|i: int| 0 <= i < credentials.len() implies env_target(#[trigger] credentials[i]) != Some(key) by {
            if i > 0 {
                assert(credentials[i] == rest[i - 1]);
            }
        }
    }
}

proof fn lemma_shadowed_env(keys: Seq<Seq<char>>, env: Set<Seq<char>>, key: Seq<char>)
    requires
        shadowed_env(keys, env) is None,
        keys.contains(key),
    ensures
        !env.contains(key),
    decreases keys.len(),
{
    let at = choose|at: int| 0 <= at < keys.len() && keys[at] == key;
    if at > 0 {
        assert(keys.drop_first()[at - 1] == key);
        lemma_shadowed_env(keys.drop_first(), env, key);
    }
}

// ---------------------------------------------------------------------------
// Identity
// ---------------------------------------------------------------------------

/// What a sandbox is given to act on someone's behalf.
#[derive(Debug)]
pub struct SandboxIdentity {
    pub identity_context: Vec<String>,
    pub ssh_auth_sock: Option<String>,
    pub git_name: Option<String>,
    pub git_email: Option<String>,
    pub auth_env: StringMap<String>,
    pub auth_files: StringMap<String>,
}

impl SandboxIdentity {
    /// Whether the sandbox is given nothing.
    pub fn is_empty(&self) -> (empty: bool)
        ensures
            empty == (self.identity_context@.len() == 0 && self.ssh_auth_sock is None && self.git_name is None
                && self.git_email is None && self.auth_env@.len() == 0 && self.auth_files@.len() == 0),
    {
        self.identity_context.len() == 0 && self.ssh_auth_sock.is_none() && self.git_name.is_none()
            && self.git_email.is_none() && self.auth_env.len() == 0 && self.auth_files.len() == 0
    }
}

/// What a sandbox is given: the credentials, the identity that the configuration
/// names, and the SSH agent where that is wanted and `live_socket` is its socket.
pub fn resolve_sandbox_identity(
    config: &Config,
    auth_env: StringMap<String>,
    auth_files: StringMap<String>,
    live_socket: Option<&str>,
) -> (identity: SandboxIdentity)
    ensures
        identity.identity_context.deep_view() == config.defaults.identity_context.deep_view(),
        identity.ssh_auth_sock.deep_view() == (if config.defaults.forward_ssh_agent {
            live_socket.deep_view()
        } else {
            None
        }),
        identity.git_name.deep_view() == config.defaults.git_user_name.deep_view(),
        identity.git_email.deep_view() == config.defaults.git_user_email.deep_view(),
        identity.auth_env == auth_env,
        identity.auth_files == auth_files,
{
    let ssh_auth_sock = match live_socket {
        Some(socket) => if config.defaults.forward_ssh_agent {
            Some(socket.to_owned())
        } else {
            None
        },
        None => None,
    };
    SandboxIdentity {
        identity_context: duplicate_strings(&config.defaults.identity_context),
        ssh_auth_sock,
        git_name: copy_text(&config.defaults.git_user_name),
        git_email: copy_text(&config.defaults.git_user_email),
        auth_env,
        auth_files,
    }
}

// ---------------------------------------------------------------------------
// Laws
// ---------------------------------------------------------------------------

/// A credential has a source exactly where one of the three is declared and no other, and
/// a target exactly where one of the two is and the other is not.
pub proof fn law_a_credential_has_one_source_and_one_target(
    credential: &CredentialConfig,
    source: Result<CredentialSource, String>,
    target: Result<CredentialTarget, String>,
)
    requires
        call_ensures(CredentialConfig::source, (credential,), source),
        call_ensures(CredentialConfig::target, (credential,), target),
    ensures
        ({
            let (a, b, c) = (credential.from_env, credential.from_secret, credential.command);
            &&& source is Ok <==> (a is Some && b is None && c is None) || (a is None && b is Some && c is None) || (
            a is None && b is None && c is Some)
            &&& match source {
                Ok(CredentialSource::Env(name)) => a is Some && name@ == a->0@,
                Ok(CredentialSource::Secret(name)) => b is Some && name@ == b->0@,
                Ok(CredentialSource::Command(command)) => c is Some && command@ == c->0@,
                Err(_) => true,
            }
            &&& target is Ok <==> credential.env is Some != credential.file is Some
            &&& match target {
                Ok(CredentialTarget::Env(name)) => credential.env is Some && name@ == credential.env->0@,
                Ok(CredentialTarget::File(path)) => credential.file is Some && path@ == credential.file->0@,
                Err(_) => true,
            }
        }),
{
}

/// An agent has the credentials that it lists, in order, and then, where it declares one
/// in the older form, that one: from its variable, to the variable that is named for it,
/// or else to its own.
pub proof fn law_older_credentials_come_last(agent: &AgentConfig, credentials: Vec<CredentialConfig>)
    requires
        call_ensures(AgentConfig::effective_credentials, (agent,), credentials),
    ensures
        ({
            let listed = agent.credentials@.len() as int;
            &&& credentials@.len() == listed + if agent.auth_token_env is Some {
                1int
            } else {
                0
            }
            &&& forall|i: int|
                0 <= i < listed ==> (#[trigger] credentials@[i]).from_env.deep_view()
                    == agent.credentials@[i].from_env.deep_view() && credentials@[i].from_secret.deep_view()
                    == agent.credentials@[i].from_secret.deep_view() && credentials@[i].command.deep_view()
                    == agent.credentials@[i].command.deep_view() && credentials@[i].env.deep_view()
                    == agent.credentials@[i].env.deep_view() && credentials@[i].file.deep_view()
                    == agent.credentials@[i].file.deep_view()
            &&& agent.auth_token_env matches Some(name) ==> {
                let last = credentials@[listed];
                &&& last.from_env is Some && last.from_env->0@ == name@
                &&& last.from_secret is None && last.command is None && last.file is None
                &&& last.env is Some && last.env->0@ == (if agent.auth_token_target is Some {
                    agent.auth_token_target->0@
                } else {
                    name@
                })
            }
        }),
{
    let views = credential_views(credentials@);
    let own = credential_views(agent.credentials@);
    assert(own.len() == agent.credentials@.len());
    assert(views.len() == credentials@.len());
    assert(views == own + single_token(agent));
    assert forall|i: int| 0 <= i < agent.credentials@.len() implies (#[trigger] credentials@[i])@
        == agent.credentials@[i]@ by {
        assert(views[i] == own[i]);
    }
    if agent.auth_token_env is Some {
        assert(views[own.len() as int] == single_token(agent)[0]);
        assert(credentials@[own.len() as int]@ == views[own.len() as int]);
    }
}

/// A value that the host answers with is the value, where it is not empty. Without one, a
/// variable is passed over, and a secret and a command stop the run, by name.
pub proof fn law_empty_answers_stop_all_but_variables(
    source: &CredentialSource,
    answer: &HostAnswer,
    value: Result<Option<String>, String>,
)
    requires
        call_ensures(resolve_credential_value, (source, answer), value),
    ensures
        ({
            let given = answer matches HostAnswer::Value(text) && text@.len() > 0;
            &&& given ==> value is Ok && value->Ok_0 is Some && value->Ok_0->0@ == answer->Value_0@
            &&& !given ==> match source {
                CredentialSource::Env(_) => value is Ok && value->Ok_0 is None,
                CredentialSource::Secret(name) => value is Err && holds(value->Err_0@, "'"@ + name@ + "'"@),
                CredentialSource::Command(command) => value is Err && holds(value->Err_0@, command@),
            }
        }),
{
    reveal_strlit("'");
    if let CredentialSource::Secret(name) = source {
        reveal_strlit("secret '");
        reveal_strlit("secret ");
        reveal_strlit("failed to resolve secret '");
        reveal_strlit("failed to resolve secret ");
        reveal_strlit("' resolved to an empty value on the host");
        reveal_strlit(" resolved to an empty value on the host");
        reveal_strlit("' from the host secret store (`fnox get ");
        reveal_strlit(" from the host secret store (`fnox get ");
        let quoted = "'"@ + name@ + "'"@;
        let empty_end = " resolved to an empty value on the host"@;
        let failed_end = " from the host secret store (`fnox get "@ + name@ + "`)"@;
        lemma_holds_within("secret "@, quoted, empty_end);
        lemma_holds_within("failed to resolve secret "@, quoted, failed_end);
        assert("secret "@ + quoted + empty_end =~= "secret '"@ + name@ + "' resolved to an empty value on the host"@);
        assert("failed to resolve secret "@ + quoted + failed_end =~= "failed to resolve secret '"@ + name@
            + "' from the host secret store (`fnox get "@ + name@ + "`)"@);
    }
    if let CredentialSource::Command(command) = source {
        let empty = "credential command produced empty output on the host: "@;
        let failed = "credential command failed on the host: "@;
        lemma_holds_within(empty, command@, Seq::empty());
        lemma_holds_within(failed, command@, Seq::empty());
        assert(empty + command@ + Seq::<char>::empty() =~= empty + command@);
        assert(failed + command@ + Seq::<char>::empty() =~= failed + command@);
    }
}

/// Whether the host's answer gives the credential at `i` the value `value`, which goes to
/// the variable `name`, or, where `file`, to the file `name`.
pub open spec fn gives(
    credentials: Seq<CredentialView>,
    answers: Seq<HostAnswer>,
    i: int,
    file: bool,
    name: Seq<char>,
    value: Seq<char>,
) -> bool {
    &&& 0 <= i < credentials.len()
    &&& i < answers.len()
    &&& if file {
        credentials[i].file == Some(name) && credentials[i].env is None
    } else {
        credentials[i].env == Some(name) && credentials[i].file is None
    }
    &&& answers[i] matches HostAnswer::Value(text) && text@ == value
    &&& value.len() > 0
}

/// Whether nothing from `from` on goes to `name`.
pub open spec fn none_gives(
    credentials: Seq<CredentialView>,
    answers: Seq<HostAnswer>,
    from: int,
    file: bool,
    name: Seq<char>,
) -> bool {
    forall|j: int, value: Seq<char>| from <= j ==> !#[trigger] gives(credentials, answers, j, file, name, value)
}

/// Whether `out` is what is gathered for one kind of target from the credentials from `n` on,
/// where `start` was there.
pub open spec fn gathers(
    credentials: Seq<CredentialView>,
    answers: Seq<HostAnswer>,
    n: int,
    file: bool,
    start: Map<Seq<char>, Seq<char>>,
    out: Map<Seq<char>, Seq<char>>,
) -> bool {
    &&& forall|name: Seq<char>, i: int, value: Seq<char>|
        n <= i && #[trigger] gives(credentials, answers, i, file, name, value) && none_gives(
            credentials,
            answers,
            i + 1,
            file,
            name,
        ) ==> out.dom().contains(name) && out[name] == value
    &&& forall|name: Seq<char>| #[trigger]
        none_gives(credentials, answers, n, file, name) ==> out.dom().contains(name) == start.dom().contains(name) && (
        start.dom().contains(name) ==> out[name] == start[name])
}

proof fn lemma_gathered(
    credentials: Seq<CredentialView>,
    answers: Seq<HostAnswer>,
    n: int,
    env: Map<Seq<char>, Seq<char>>,
    files: Map<Seq<char>, Seq<char>>,
)
    requires
        0 <= n <= credentials.len(),
        n <= answers.len() || n == 0,
    ensures
        match gathered(credentials, answers, n, env, files) {
            CredentialStepView::Done(out_env, out_files) => {
                &&& gathers(credentials, answers, n, false, env, out_env)
                &&& gathers(credentials, answers, n, true, files, out_files)
                &&& credentials.len() <= answers.len() || credentials.len() == n
                &&& forall|i: int| n <= i < credentials.len() ==> !stops(#[trigger] credentials[i], answers, i)
            },
            CredentialStepView::Ask(source) => {
                &&& answers.len() < credentials.len()
                &&& credentials[answers.len() as int].source() == Some(source)
                &&& credentials[answers.len() as int].target() is Some
                &&& forall|i: int| n <= i < answers.len() ==> !stops(#[trigger] credentials[i], answers, i)
            },
            CredentialStepView::Refused(_) => exists|i: int|
                n <= i < credentials.len() && i <= answers.len() && stops(#[trigger] credentials[i], answers, i),
        },
    decreases credentials.len() - n,
{
    if n >= credentials.len() {
    } else {
        let credential = credentials[n];
        match (credential.source(), credential.target()) {
            (None, _) => {
                assert(stops(credentials[n], answers, n));
            },
            (Some(_), None) => {
                assert(stops(credentials[n], answers, n));
            },
            (Some(source), Some(target)) => {
                if n < answers.len() {
                    match credential_value(source, answers[n]) {
                        Err(text) => {
                            assert(stops(credentials[n], answers, n));
                        },
                        Ok(None) => {
                            lemma_gathered(credentials, answers, n + 1, env, files);
                            let done = gathered(credentials, answers, n, env, files);
                            lemma_gathers_step(credentials, answers, n, false, env, env, done->Done_0);
                            lemma_gathers_step(credentials, answers, n, true, files, files, done->Done_1);
                        },
                        Ok(Some(value)) => {
                            let (next_env, next_files) = match target {
                                TargetView::Env(name) => (env.insert(name, value), files),
                                TargetView::File(path) => (env, files.insert(path, value)),
                            };
                            match target {
                                TargetView::Env(name) => {
                                    assert(gives(credentials, answers, n, false, name, value));
                                },
                                TargetView::File(path) => {
                                    assert(gives(credentials, answers, n, true, path, value));
                                },
                            }
                            lemma_gathered(credentials, answers, n + 1, next_env, next_files);
                            let done = gathered(credentials, answers, n, env, files);
                            lemma_gathers_step(credentials, answers, n, false, env, next_env, done->Done_0);
                            lemma_gathers_step(credentials, answers, n, true, files, next_files, done->Done_1);
                        },
                    }
                }
            },
        }
    }
}

/// One credential more keeps to the account of the later ones.
proof fn lemma_gathers_step(
    credentials: Seq<CredentialView>,
    answers: Seq<HostAnswer>,
    n: int,
    file: bool,
    start: Map<Seq<char>, Seq<char>>,
    next: Map<Seq<char>, Seq<char>>,
    out: Map<Seq<char>, Seq<char>>,
)
    requires
        0 <= n < credentials.len(),
        forall|name: Seq<char>, value: Seq<char>| #[trigger]
            gives(credentials, answers, n, file, name, value) ==> next == start.insert(name, value),
        (forall|name: Seq<char>, value: Seq<char>| !#[trigger] gives(credentials, answers, n, file, name, value))
            ==> next == start,
    ensures
        gathers(credentials, answers, n + 1, file, next, out) ==> gathers(credentials, answers, n, file, start, out),
{
    if gathers(credentials, answers, n + 1, file, next, out) {
        assert forall|name: Seq<char>, i: int, value: Seq<char>|
            n <= i && #[trigger] gives(credentials, answers, i, file, name, value) && none_gives(
                credentials,
                answers,
                i + 1,
                file,
                name,
            ) implies out.dom().contains(name) && out[name] == value by {
            if i == n {
                assert(none_gives(credentials, answers, n + 1, file, name));
            }
        }
        assert forall|name: Seq<char>| #[trigger] none_gives(credentials, answers, n, file, name) implies
            out.dom().contains(name) == start.dom().contains(name) && (start.dom().contains(name) ==> out[name]
            == start[name]) by {
            assert(none_gives(credentials, answers, n + 1, file, name));
            if exists|other: Seq<char>, value: Seq<char>| #[trigger]
                gives(credentials, answers, n, file, other, value) {
                let (other, value) = choose|other: Seq<char>, value: Seq<char>| #[trigger]
                    gives(credentials, answers, n, file, other, value);
                assert(other != name);
            }
        }
    }
}

/// Whether a credential stops a run: it has not one source and one target, or it is a
/// secret or a command and the host has answered with no value.
pub open spec fn stops(credential: CredentialView, answers: Seq<HostAnswer>, i: int) -> bool {
    let sources: int = (if credential.from_env is Some {
        1int
    } else {
        0
    }) + (if credential.from_secret is Some {
        1int
    } else {
        0
    }) + (if credential.command is Some {
        1int
    } else {
        0
    });
    ||| sources != 1
    ||| credential.env is Some == credential.file is Some
    ||| i < answers.len() && credential.from_env is None && !(answers[i] matches HostAnswer::Value(text) && text@.len()
        > 0)
}

/// Credentials are gathered one after the other, the host being asked for each once. Each
/// goes to its variable or to its file, of several with the same target the last one that
/// has a value, and nothing else goes there. The run is stopped exactly by a credential that
/// has not one source and one target, or by a secret or a command without a value.
pub proof fn law_credentials_go_to_their_targets(
    agent: &AgentConfig,
    credentials: Vec<CredentialConfig>,
    answers: &Vec<HostAnswer>,
    step: CredentialStep,
)
    requires
        call_ensures(AgentConfig::effective_credentials, (agent,), credentials),
        call_ensures(resolve_agent_credentials, (agent, answers), step),
    ensures
        ({
            let all = credential_views(credentials@);
            let none = Map::<Seq<char>, Seq<char>>::empty();
            match step {
                CredentialStep::Done(env, files) => {
                    &&& all.len() <= answers@.len()
                    &&& gathers(all, answers@, 0, false, none, texts(env@))
                    &&& gathers(all, answers@, 0, true, none, texts(files@))
                    &&& forall|i: int| 0 <= i < all.len() ==> !stops(#[trigger] all[i], answers@, i)
                },
                CredentialStep::Ask(source) => {
                    &&& answers@.len() < all.len()
                    &&& match source {
                        CredentialSource::Env(name) => all[answers@.len() as int].from_env == Some(name@),
                        CredentialSource::Secret(name) => all[answers@.len() as int].from_secret == Some(name@),
                        CredentialSource::Command(command) => all[answers@.len() as int].command == Some(command@),
                    }
                    &&& forall|i: int| 0 <= i < answers@.len() ==> !stops(#[trigger] all[i], answers@, i)
                },
                CredentialStep::Refused(_) => exists|i: int|
                    0 <= i < all.len() && i <= answers@.len() && stops(#[trigger] all[i], answers@, i),
            }
        }),
{
    lemma_gathered(all_credentials(agent), answers@, 0, Map::empty(), Map::empty());
}

/// A variable needs no program of the host; a secret is got from `fnox` by its name, and a
/// command is run by the shell as it stands.
pub proof fn law_secrets_are_got_by_name(source: &CredentialSource, command: Option<(String, Vec<String>)>)
    requires
        call_ensures(host_command, (source,), command),
    ensures
        match source {
            CredentialSource::Env(_) => command is None,
            CredentialSource::Secret(name) => command is Some && (command->0).0@ == "fnox"@ && (command->0).1@.len() == 2
                && (command->0).1@[0]@ == "get"@ && (command->0).1@[1]@ == name@,
            CredentialSource::Command(line) => command is Some && (command->0).0@ == "sh"@ && (command->0).1@.len() == 2
                && (command->0).1@[0]@ == "-c"@ && (command->0).1@[1]@ == line@,
        },
{
    if let Some((program, args)) = command {
        assert(args.deep_view().len() == 2);
        assert(args.deep_view()[0] == args@[0]@);
        assert(args.deep_view()[1] == args@[1]@);
    }
}

/// Of what a program printed, only the line ends at its end are left out, all of them.
pub proof fn law_only_line_ends_are_left_out(stdout: &str, value: String)
    requires
        call_ensures(printed_value, (stdout,), value),
    ensures
        value@.len() > 0 ==> value@.last() != '\n' && value@.last() != '\r',
        exists|ends: Seq<char>|
            stdout@ == #[trigger] (value@ + ends) && forall|i: int|
                0 <= i < ends.len() ==> #[trigger] ends[i] == '\n' || ends[i] == '\r',
{
    lemma_line_ends(stdout@);
}

proof fn lemma_line_ends(text: Seq<char>)
    ensures
        exists|ends: Seq<char>|
            text == #[trigger] (without_line_ends(text) + ends) && forall|i: int|
                0 <= i < ends.len() ==> #[trigger] ends[i] == '\n' || ends[i] == '\r',
        without_line_ends(text).len() > 0 ==> without_line_ends(text).last() != '\n' && without_line_ends(text).last()
            != '\r',
    decreases text.len(),
{
    if text.len() > 0 && (text.last() == '\n' || text.last() == '\r') {
        let front = text.drop_last();
        lemma_line_ends(front);
        let ends = choose|ends: Seq<char>|
            front == #[trigger] (without_line_ends(front) + ends) && forall|i: int|
                0 <= i < ends.len() ==> #[trigger] ends[i] == '\n' || ends[i] == '\r';
        let all = ends.push(text.last());
        assert(text =~= front.push(text.last()));
        assert(text =~= without_line_ends(text) + all);
    } else {
        assert(text =~= without_line_ends(text) + Seq::<char>::empty());
    }
}

/// A value stands for a secret exactly where it is the name of the secret, which is not
/// empty, between `${fnox:` and `}`.
pub proof fn law_secrets_are_written_in_braces(value: &str, secret: Option<String>)
    requires
        call_ensures(fnox_env_ref, (value,), secret),
    ensures
        secret matches Some(name) ==> name@.len() > 0 && value@ == "${fnox:"@ + name@ + "}"@,
        secret is None ==> forall|name: Seq<char>| name.len() > 0 ==> value@ != #[trigger] ("${fnox:"@ + name + "}"@),
{
    lemma_secret_name(value@);
}

proof fn lemma_secret_name(value: Seq<char>)
    ensures
        secret_name(value) matches Some(name) ==> name.len() > 0 && value == "${fnox:"@ + name + "}"@,
        secret_name(value) is None ==> forall|name: Seq<char>|
            name.len() > 0 ==> value != #[trigger] ("${fnox:"@ + name + "}"@),
{
    reveal_strlit("${fnox:");
    reveal_strlit("}");
    let lead = "${fnox:"@;
    if let Some(name) = secret_name(value) {
        assert(value =~= value.subrange(0, lead.len() as int) + name + "}"@);
    } else {
        assert forall|name: Seq<char>| name.len() > 0 implies value != #[trigger] (lead + name + "}"@) by {
            let text = lead + name + "}"@;
            assert(text.subrange(0, lead.len() as int) =~= lead);
            assert(text.last() == '}');
        }
    }
}

/// How many of the first `n` keys stand for a secret.
pub open spec fn secrets_among(keys: Seq<Seq<char>>, env: Map<Seq<char>, Seq<char>>, n: int) -> int
    decreases n,
{
    if n <= 0 {
        0
    } else {
        secrets_among(keys, env, n - 1) + if secret_name(env[keys[n - 1]]) is Some {
            1int
        } else {
            0
        }
    }
}

/// Whether the key at `i` stops a run: it stands for a secret and is not trusted, or the
/// host has answered about it with no value.
pub open spec fn key_stops(
    keys: Seq<Seq<char>>,
    env: Map<Seq<char>, Seq<char>>,
    untrusted: Seq<Seq<char>>,
    answers: Seq<HostAnswer>,
    i: int,
) -> bool {
    let turn = secrets_among(keys, env, i);
    secret_name(env[keys[i]]) is Some && (untrusted.contains(keys[i]) || turn < answers.len() && !(
    answers[turn] matches HostAnswer::Value(text) && text@.len() > 0))
}

proof fn lemma_resolved(
    keys: Seq<Seq<char>>,
    untrusted: Seq<Seq<char>>,
    answers: Seq<HostAnswer>,
    n: int,
    start: Map<Seq<char>, Seq<char>>,
    env: Map<Seq<char>, Seq<char>>,
)
    requires
        0 <= n <= keys.len(),
        0 <= secrets_among(keys, start, n) <= answers.len(),
        forall|i: int| n <= i < keys.len() ==> env[#[trigger] keys[i]] == start[keys[i]],
        forall|i: int, j: int| 0 <= i < j < keys.len() ==> #[trigger] keys[i] != #[trigger] keys[j],
    ensures
        match resolved(keys, untrusted, answers, n, secrets_among(keys, start, n), env) {
            SecretStepView::Done(out) => {
                &&& forall|i: int|
                    n <= i < keys.len() && secret_name(start[#[trigger] keys[i]]) is Some ==> {
                        let turn = secrets_among(keys, start, i);
                        &&& !untrusted.contains(keys[i])
                        &&& 0 <= turn < answers.len()
                        &&& answers[turn] is Value
                        &&& out[keys[i]] == answers[turn]->Value_0@
                        &&& out[keys[i]].len() > 0
                    }
                &&& forall|key: Seq<char>|
                    (forall|i: int| n <= i < keys.len() ==> keys[i] != key) || secret_name(env[key]) is None
                        ==> #[trigger] out[key] == env[key]
            },
            SecretStepView::Ask(key, secret) => exists|i: int|
                n <= i < keys.len() && #[trigger] keys[i] == key && secret_name(start[key]) == Some(secret)
                    && secrets_among(keys, start, i) == answers.len() && !untrusted.contains(key) && forall|j: int|
                    n <= j < i ==> !#[trigger] key_stops(keys, start, untrusted, answers, j),
            SecretStepView::Refused(_) => exists|i: int|
                n <= i < keys.len() && #[trigger] key_stops(keys, start, untrusted, answers, i),
        },
    decreases keys.len() - n,
{
    if n < keys.len() {
        let key = keys[n];
        let asked = secrets_among(keys, start, n);
        assert(env[keys[n]] == start[keys[n]]);
        match secret_name(env[key]) {
            None => {
                lemma_resolved(keys, untrusted, answers, n + 1, start, env);
                let step = resolved(keys, untrusted, answers, n + 1, asked, env);
                assert(secrets_among(keys, start, n + 1) == asked);
                if let SecretStepView::Ask(asked_key, secret) = step {
                    let i = choose|i: int|
                        n + 1 <= i < keys.len() && #[trigger] keys[i] == asked_key && secret_name(start[asked_key])
                            == Some(secret) && secrets_among(keys, start, i) == answers.len() && !untrusted.contains(
                            asked_key,
                        ) && forall|j: int|
                            n + 1 <= j < i ==> !#[trigger] key_stops(keys, start, untrusted, answers, j);
                    assert(keys[i] == asked_key);
                }
            },
            Some(secret) => {
                if untrusted.contains(key) {
                    assert(key_stops(keys, start, untrusted, answers, n));
                } else if asked >= answers.len() {
                    assert(keys[n] == key);
                } else {
                    match secret_value(key, secret, answers[asked]) {
                        Err(text) => {
                            assert(key_stops(keys, start, untrusted, answers, n));
                        },
                        Ok(value) => {
                            let next = env.insert(key, value);
                            assert(secrets_among(keys, start, n + 1) == asked + 1);
                            assert forall|i: int| n + 1 <= i < keys.len() implies next[#[trigger] keys[i]]
                                == start[keys[i]] by {
                                assert(keys[i] != keys[n]);
                            }
                            lemma_resolved(keys, untrusted, answers, n + 1, start, next);
                            let step = resolved(keys, untrusted, answers, n + 1, asked + 1, next);
                            if let SecretStepView::Done(out) = step {
                                assert forall|i: int| n + 1 <= i < keys.len() implies keys[i] != key by {
                                    assert(keys[n] != keys[i]);
                                }
                                assert(out[key] == next[key]);
                                assert forall|other: Seq<char>|
                                    (forall|i: int| n <= i < keys.len() ==> keys[i] != other) || secret_name(
                                        env[other],
                                    ) is None implies #[trigger] out[other] == env[other] by {
                                    if other == key {
                                        assert(keys[n] == other);
                                    } else {
                                        assert(next[other] == env[other]);
                                    }
                                }
                            }
                            if let SecretStepView::Ask(asked_key, asked_secret) = step {
                                let i = choose|i: int|
                                    n + 1 <= i < keys.len() && #[trigger] keys[i] == asked_key && secret_name(
                                        start[asked_key],
                                    ) == Some(asked_secret) && secrets_among(keys, start, i) == answers.len()
                                        && !untrusted.contains(asked_key) && forall|j: int|
                                        n + 1 <= j < i ==> !#[trigger] key_stops(keys, start, untrusted, answers, j);
                                assert(keys[i] == asked_key);
                            }
                        },
                    }
                }
            },
        }
    }
}

/// The secrets of an environment are resolved in the order of its keys, the host being
/// asked once for each. A key that stands for a secret gets what the host answered in its
/// turn, which is not empty; every other key keeps its value. The host is asked for the
/// next secret only where its key is trusted, and the run is stopped exactly by a key that
/// is not, or by an answer without a value.
pub proof fn law_secrets_are_resolved_in_turn(
    env: &StringMap<String>,
    untrusted_keys: &Vec<String>,
    answers: &Vec<HostAnswer>,
    step: SecretStep,
)
    requires
        lists_in_order(env.keys(), env@.dom()),
        call_ensures(resolve_env_secrets, (env, untrusted_keys, answers), step),
    ensures
        ({
            let keys = env.keys();
            let start = texts(env@);
            let untrusted = untrusted_keys.deep_view();
            match step {
                SecretStep::Done(out) => forall|i: int|
                    0 <= i < keys.len() ==> {
                        let key = #[trigger] keys[i];
                        let turn = secrets_among(keys, start, i);
                        if secret_name(start[key]) is Some {
                            &&& !untrusted.contains(key)
                            &&& 0 <= turn < answers@.len()
                            &&& answers@[turn] is Value
                            &&& texts(out@)[key] == answers@[turn]->Value_0@
                            &&& texts(out@)[key].len() > 0
                        } else {
                            texts(out@)[key] == start[key]
                        }
                    },
                SecretStep::Ask(key, secret) => exists|i: int|
                    0 <= i < keys.len() && #[trigger] keys[i] == key@ && secret_name(start[key@]) == Some(secret@)
                        && secrets_among(keys, start, i) == answers@.len() && !untrusted.contains(key@) && forall|j: int|
                        0 <= j < i ==> !#[trigger] key_stops(keys, start, untrusted, answers@, j),
                SecretStep::Refused(_) => exists|i: int|
                    0 <= i < keys.len() && #[trigger] key_stops(keys, start, untrusted, answers@, i),
            }
        }),
{
    let keys = env.keys();
    let start = texts(env@);
    assert forall|i: int, j: int| 0 <= i < j < keys.len() implies #[trigger] keys[i] != #[trigger] keys[j] by {
        assert(before(keys[i], keys[j]));
        crate::order::lemma_before_irreflexive(keys[i]);
    }
    lemma_resolved(keys, untrusted_keys.deep_view(), answers@, 0, start, start);
}

/// A `.varda` file is refused exactly where it declares a variable that a credential goes
/// to, listed or in the older form, or one that the agent's own environment has.
pub proof fn law_the_floor_refuses_what_would_be_overridden(
    agent: &AgentConfig,
    resolved: &ResolvedSandbox,
    credentials: Vec<CredentialConfig>,
    verdict: Result<(), String>,
)
    requires
        call_ensures(AgentConfig::effective_credentials, (agent,), credentials),
        call_ensures(enforce_varda_env_credential_floor, (agent, resolved), verdict),
    ensures
        verdict is Err <==> exists|k: int|
            0 <= k < resolved.varda_env_keys@.len() && {
                let key = #[trigger] resolved.varda_env_keys@[k]@;
                ||| agent.env@.dom().contains(key)
                ||| exists|i: int|
                    0 <= i < credentials@.len() && (#[trigger] credentials@[i]).file is None && credentials@[i].env is Some
                        && credentials@[i].env->0@ == key
            },
{
    let keys = resolved.varda_env_keys.deep_view();
    let all = all_credentials(agent);
    assert(all == credential_views(credentials@));
    if verdict is Err {
        if shadowed_credential(all, keys) is Some {
            lemma_shadowed_credential_found(all, keys);
            let name = shadowed_credential(all, keys)->0;
            let i = choose|i: int| 0 <= i < all.len() && env_target(#[trigger] all[i]) == Some(name);
            let k = choose|k: int| 0 <= k < keys.len() && keys[k] == name;
            assert(all[i] == credentials@[i]@);
            assert(resolved.varda_env_keys@[k]@ == name);
        } else {
            lemma_shadowed_env_found(keys, agent.env@.dom());
            let name = shadowed_env(keys, agent.env@.dom())->0;
            let k = choose|k: int| 0 <= k < keys.len() && keys[k] == name;
            assert(resolved.varda_env_keys@[k]@ == name);
        }
    } else {
        assert forall|k: int| 0 <= k < resolved.varda_env_keys@.len() implies !({
            let key = #[trigger] resolved.varda_env_keys@[k]@;
            ||| agent.env@.dom().contains(key)
            ||| exists|i: int|
                0 <= i < credentials@.len() && (#[trigger] credentials@[i]).file is None && credentials@[i].env is Some
                    && credentials@[i].env->0@ == key
        }) by {
            let key = resolved.varda_env_keys@[k]@;
            assert(keys[k] == key);
            assert(keys.contains(key));
            law_the_floor_holds(agent, resolved, key);
            assert forall|i: int| 0 <= i < credentials@.len() implies !((#[trigger] credentials@[i]).file is None
                && credentials@[i].env is Some && credentials@[i].env->0@ == key) by {
                assert(all[i] == credentials@[i]@);
                assert(env_target(all[i]) != Some(key));
            }
        }
    }
}

proof fn lemma_shadowed_credential_found(credentials: Seq<CredentialView>, keys: Seq<Seq<char>>)
    requires
        shadowed_credential(credentials, keys) is Some,
    ensures
        keys.contains(shadowed_credential(credentials, keys)->0),
        exists|i: int|
            0 <= i < credentials.len() && env_target(#[trigger] credentials[i]) == shadowed_credential(
                credentials,
                keys,
            ),
    decreases credentials.len(),
{
    let first = env_target(credentials[0]);
    if !(first is Some && keys.contains(first->0)) {
        let rest = credentials.drop_first();
        lemma_shadowed_credential_found(rest, keys);
        let i = choose|i: int|
            0 <= i < rest.len() && env_target(#[trigger] rest[i]) == shadowed_credential(rest, keys);
        assert(credentials[i + 1] == rest[i]);
    }
}

proof fn lemma_shadowed_env_found(keys: Seq<Seq<char>>, env: Set<Seq<char>>)
    requires
        shadowed_env(keys, env) is Some,
    ensures
        keys.contains(shadowed_env(keys, env)->0),
        env.contains(shadowed_env(keys, env)->0),
    decreases keys.len(),
{
    if !env.contains(keys[0]) {
        let rest = keys.drop_first();
        lemma_shadowed_env_found(rest, env);
        let i = choose|i: int| 0 <= i < rest.len() && rest[i] == shadowed_env(rest, env)->0;
        assert(keys[i + 1] == rest[i]);
    }
}

/// The SSH agent is handed on only where that is wanted, and then where there is one; what
/// else a sandbox is given is what the configuration and the credentials say.
pub proof fn law_the_ssh_agent_is_handed_on_where_wanted(
    config: &Config,
    auth_env: StringMap<String>,
    auth_files: StringMap<String>,
    live_socket: Option<&str>,
    identity: SandboxIdentity,
)
    requires
        call_ensures(resolve_sandbox_identity, (config, auth_env, auth_files, live_socket), identity),
    ensures
        !config.defaults.forward_ssh_agent ==> identity.ssh_auth_sock is None,
        config.defaults.forward_ssh_agent ==> identity.ssh_auth_sock is Some == live_socket is Some,
        identity.ssh_auth_sock matches Some(socket) ==> live_socket is Some && socket@ == live_socket->0@,
        identity.git_name.deep_view() == config.defaults.git_user_name.deep_view(),
        identity.git_email.deep_view() == config.defaults.git_user_email.deep_view(),
        identity.identity_context.deep_view() == config.defaults.identity_context.deep_view(),
        identity.auth_env == auth_env,
        identity.auth_files == auth_files,
{
}

} // verus!
