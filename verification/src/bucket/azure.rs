//! The Azure settings that a bucket accepts.
//!
//! A storage account key, a managed identity or a workload identity authenticate
//! a bucket; every other setting that Azure knows is refused, and so is a mix.

use object_store::azure::AzureConfigKey;
use vstd::prelude::*;

use crate::ltx::client::replica_retry_config;
use crate::ltx::client::RetryPolicy;
use crate::text;

verus! {

broadcast use vstd::string::group_string_axioms;

/// An Azure setting.
#[derive(Clone, Copy, Debug, PartialEq, Eq, Structural)]
pub enum AzureSetting {
    AccountName,
    AccessKey,
    ClientId,
    ObjectId,
    MsiResourceId,
    AuthorityId,
    AuthorityHost,
    FederatedTokenFile,
    UseEmulator,
    /// Any other that Azure knows.
    Other,
}

/// The Azure variables of an environment.
pub struct AzureEnv {
    pub variables: Vec<(String, String)>,
}

/// A variable: the setting that its name is for, its name and its value.
pub struct AzureVariable {
    pub setting: Option<AzureSetting>,
    pub name: String,
    pub value: String,
}

/// Why a bucket's Azure settings are refused.
pub enum AzureRefusal {
    /// A setting that is not accepted, by its name.
    Setting(String),
    /// An authority other than the public one.
    Authority(String),
    /// Two names of one setting.
    Alias(String, String),
    /// More than one family of credentials.
    Mixed,
    /// More than one selector of a managed identity, by their names.
    Selectors(Vec<String>),
    /// A workload identity that is not complete.
    Workload,
    /// A switch that is neither on nor off, by its name and value.
    Emulator(String, String),
    /// No storage account.
    NoAccount,
}

/// A refusal's view.
pub enum AzureRefusalView {
    Setting(Seq<char>),
    Authority(Seq<char>),
    Alias(Seq<char>, Seq<char>),
    Mixed,
    Selectors(Seq<Seq<char>>),
    Workload,
    Emulator(Seq<char>, Seq<char>),
    NoAccount,
}

impl View for AzureRefusal {
    type V = AzureRefusalView;

    open spec fn view(&self) -> AzureRefusalView {
        match *self {
            AzureRefusal::Setting(name) => AzureRefusalView::Setting(name@),
            AzureRefusal::Authority(name) => AzureRefusalView::Authority(name@),
            AzureRefusal::Alias(first, name) => AzureRefusalView::Alias(first@, name@),
            AzureRefusal::Mixed => AzureRefusalView::Mixed,
            AzureRefusal::Selectors(names) => AzureRefusalView::Selectors(text::views(names@)),
            AzureRefusal::Workload => AzureRefusalView::Workload,
            AzureRefusal::Emulator(name, value) => AzureRefusalView::Emulator(name@, value@),
            AzureRefusal::NoAccount => AzureRefusalView::NoAccount,
        }
    }
}

/// How an Azure client is built.
pub struct AzurePlan {
    /// The settings with their values, but for the emulator's switch.
    pub settings: Vec<(AzureSetting, String)>,
    /// Whether the emulator is used, where that is said.
    pub emulator: Option<bool>,
    pub container: String,
}

/// A setting as it was read: what it is, its name, and its value.
pub struct Entry {
    pub setting: AzureSetting,
    pub name: Seq<char>,
    pub value: Seq<char>,
}

/// What the variables say: their settings, or why they are refused.
pub enum Scan {
    Settings(Seq<Entry>),
    Refused(AzureRefusalView),
}

/// The public authority.
pub open spec fn public_authority() -> Seq<char> {
    "https://login.microsoftonline.com"@
}

/// The name of the first entry for a setting.
pub open spec fn first_name(entries: Seq<Entry>, setting: AzureSetting) -> Option<Seq<char>>
    decreases entries.len(),
{
    if entries.len() == 0 {
        None
    } else {
        match first_name(entries.drop_last(), setting) {
            Some(name) => Some(name),
            None => if entries.last().setting == setting {
                Some(entries.last().name)
            } else {
                None
            },
        }
    }
}

/// Whether some entry is for a setting.
pub open spec fn sets(entries: Seq<Entry>, setting: AzureSetting) -> bool {
    first_name(entries, setting) is Some
}

/// The variables' settings, up to the first that is refused. A variable that
/// Azure does not know is passed over.
pub open spec fn scan(variables: Seq<AzureVariable>) -> Scan
    decreases variables.len(),
{
    if variables.len() == 0 {
        Scan::Settings(Seq::empty())
    } else {
        match scan(variables.drop_last()) {
            Scan::Refused(refusal) => Scan::Refused(refusal),
            Scan::Settings(entries) => {
                let v = variables.last();
                match v.setting {
                    None => Scan::Settings(entries),
                    Some(setting) => if setting is Other {
                        Scan::Refused(AzureRefusalView::Setting(v.name@))
                    } else if setting is AuthorityHost && v.value@ != public_authority() && v.value@
                        != public_authority() + "/"@ {
                        Scan::Refused(AzureRefusalView::Authority(v.name@))
                    } else {
                        match first_name(entries, setting) {
                            Some(first) => Scan::Refused(
                                AzureRefusalView::Alias(first, v.name@),
                            ),
                            None => Scan::Settings(
                                entries.push(
                                    Entry {
                                        setting,
                                        name: v.name@,
                                        value: if setting is AuthorityHost {
                                            public_authority()
                                        } else {
                                            v.value@
                                        },
                                    },
                                ),
                            ),
                        }
                    },
                }
            },
        }
    }
}

/// Whether a setting selects a managed identity.
pub open spec fn selects(setting: AzureSetting) -> bool {
    setting is ClientId || setting is ObjectId || setting is MsiResourceId
}

/// The names of the entries that select a managed identity.
pub open spec fn selector_names(entries: Seq<Entry>) -> Seq<Seq<char>>
    decreases entries.len(),
{
    if entries.len() == 0 {
        Seq::empty()
    } else {
        let before = selector_names(entries.drop_last());
        if selects(entries.last().setting) {
            before.push(entries.last().name)
        } else {
            before
        }
    }
}

/// Whether the settings are those of a workload identity.
pub open spec fn workload(entries: Seq<Entry>) -> bool {
    sets(entries, AzureSetting::AuthorityId) || sets(entries, AzureSetting::AuthorityHost) || sets(
        entries,
        AzureSetting::FederatedTokenFile,
    )
}

/// Whether the settings are those of a managed identity only.
pub open spec fn managed(entries: Seq<Entry>) -> bool {
    sets(entries, AzureSetting::ObjectId) || sets(entries, AzureSetting::MsiResourceId)
}

/// Whether the credentials are of more than one family.
pub open spec fn mixed(entries: Seq<Entry>) -> bool {
    ||| sets(entries, AzureSetting::AccessKey) && (sets(entries, AzureSetting::ClientId) || workload(
        entries,
    ) || managed(entries))
    ||| workload(entries) && managed(entries)
}

/// What a switch says, in lower case.
pub open spec fn switch_of(value: Seq<char>) -> Option<bool> {
    let value = text::lower_all(value);
    if value == "true"@ || value == "1"@ {
        Some(true)
    } else if value == "false"@ || value == "0"@ {
        Some(false)
    } else {
        None
    }
}

/// The value of the first entry for a setting.
pub open spec fn entry_of(entries: Seq<Entry>, setting: AzureSetting) -> Option<Entry>
    decreases entries.len(),
{
    if entries.len() == 0 {
        None
    } else {
        match entry_of(entries.drop_last(), setting) {
            Some(entry) => Some(entry),
            None => if entries.last().setting == setting {
                Some(entries.last())
            } else {
                None
            },
        }
    }
}

/// Why settings are refused as a whole, where they are.
pub open spec fn refusal_of(entries: Seq<Entry>) -> Option<AzureRefusalView> {
    if mixed(entries) {
        Some(AzureRefusalView::Mixed)
    } else if !workload(entries) && selector_names(entries).len() > 1 {
        Some(AzureRefusalView::Selectors(selector_names(entries)))
    } else if workload(entries) && !(sets(entries, AzureSetting::ClientId) && sets(
        entries,
        AzureSetting::AuthorityId,
    ) && sets(entries, AzureSetting::FederatedTokenFile)) {
        Some(AzureRefusalView::Workload)
    } else {
        match entry_of(entries, AzureSetting::UseEmulator) {
            Some(entry) => match switch_of(entry.value) {
                None => Some(
                    AzureRefusalView::Emulator(entry.name, text::lower_all(entry.value)),
                ),
                Some(true) => None,
                Some(false) => if sets(entries, AzureSetting::AccountName) {
                    None
                } else {
                    Some(AzureRefusalView::NoAccount)
                },
            },
            None => if sets(entries, AzureSetting::AccountName) {
                None
            } else {
                Some(AzureRefusalView::NoAccount)
            },
        }
    }
}

/// The settings that are handed to the client: all but the emulator's switch.
pub open spec fn handed_on(entries: Seq<Entry>) -> Seq<(AzureSetting, Seq<char>)>
    decreases entries.len(),
{
    if entries.len() == 0 {
        Seq::empty()
    } else {
        let before = handed_on(entries.drop_last());
        if entries.last().setting is UseEmulator {
            before
        } else {
            before.push((entries.last().setting, entries.last().value))
        }
    }
}

/// The views of settings.
pub open spec fn setting_views(settings: Seq<(AzureSetting, String)>) -> Seq<
    (AzureSetting, Seq<char>),
> {
    settings.map_values(|s: (AzureSetting, String)| (s.0, s.1@))
}

/// Whether a result is that of variables: a plan, or the first refusal.
pub open spec fn is_plan(
    out: Result<AzurePlan, AzureRefusal>,
    variables: Seq<AzureVariable>,
    container: Seq<char>,
) -> bool {
    match scan(variables) {
        Scan::Refused(refusal) => out matches Err(r) && r@ == refusal,
        Scan::Settings(entries) => match refusal_of(entries) {
            Some(refusal) => out matches Err(r) && r@ == refusal,
            None => out matches Ok(plan) && {
                &&& setting_views(plan.settings@) == handed_on(entries)
                &&& plan.emulator == match entry_of(entries, AzureSetting::UseEmulator) {
                    Some(entry) => switch_of(entry.value),
                    None => None,
                }
                &&& plan.container@ == container
            },
        },
    }
}

/// Which setting Azure has a name for: none where it does not know the name.
pub uninterp spec fn azure_key_of(name: Seq<char>) -> Option<AzureSetting>;

/// `object_store::azure::AzureConfigKey`'s `FromStr`: which setting a name in
/// lower case is for. The nine settings that matter here are told apart, and all
/// others are one.
#[verifier::external_body]
fn azure_setting(name: &str) -> (setting: Option<AzureSetting>)
    ensures
        setting == azure_key_of(name@),
{
    match name.parse::<AzureConfigKey>().ok()? {
        AzureConfigKey::AccountName => Some(AzureSetting::AccountName),
        AzureConfigKey::AccessKey => Some(AzureSetting::AccessKey),
        AzureConfigKey::ClientId => Some(AzureSetting::ClientId),
        AzureConfigKey::ObjectId => Some(AzureSetting::ObjectId),
        AzureConfigKey::MsiResourceId => Some(AzureSetting::MsiResourceId),
        AzureConfigKey::AuthorityId => Some(AzureSetting::AuthorityId),
        AzureConfigKey::AuthorityHost => Some(AzureSetting::AuthorityHost),
        AzureConfigKey::FederatedTokenFile => Some(AzureSetting::FederatedTokenFile),
        AzureConfigKey::UseEmulator => Some(AzureSetting::UseEmulator),
        _ => Some(AzureSetting::Other),
    }
}

/// `object_store::azure::authority_hosts::AZURE_PUBLIC_CLOUD`: the address of the
/// public authority.
#[verifier::external_body]
fn public_cloud() -> (authority: &'static str)
    ensures
        authority@ == public_authority(),
{
    object_store::azure::authority_hosts::AZURE_PUBLIC_CLOUD
}

/// A setting that was read, in executable form.
struct Read {
    setting: AzureSetting,
    name: String,
    value: String,
}

spec fn entries_of(read: Seq<Read>) -> Seq<Entry> {
    read.map_values(|r: Read| Entry { setting: r.setting, name: r.name@, value: r.value@ })
}

proof fn lemma_entries_push(read: Seq<Read>, r: Read)
    ensures
        entries_of(read.push(r)) == entries_of(read).push(
            Entry { setting: r.setting, name: r.name@, value: r.value@ },
        ),
{
    assert(entries_of(read.push(r)) =~= entries_of(read).push(
        Entry { setting: r.setting, name: r.name@, value: r.value@ },
    ));
}

proof fn lemma_entries_take(read: Seq<Read>, i: int)
    requires
        0 <= i < read.len(),
    ensures
        entries_of(read.take(i + 1)).drop_last() == entries_of(read.take(i)),
        entries_of(read.take(i + 1)).last() == (Entry {
            setting: read[i].setting,
            name: read[i].name@,
            value: read[i].value@,
        }),
        entries_of(read.take(i + 1)).len() > 0,
{
    assert(entries_of(read.take(i + 1)).drop_last() =~= entries_of(read.take(i)));
}

/// The place of the first entry for a setting.
fn place_of(read: &Vec<Read>, setting: AzureSetting) -> (place: Option<usize>)
    ensures
        match place {
            Some(i) => i < read@.len() && first_name(entries_of(read@), setting) == Some(
                read@[i as int].name@,
            ) && entry_of(entries_of(read@), setting) == Some(
                Entry {
                    setting: read@[i as int].setting,
                    name: read@[i as int].name@,
                    value: read@[i as int].value@,
                },
            ),
            None => !sets(entries_of(read@), setting) && entry_of(
                entries_of(read@),
                setting,
            ) is None,
        },
{
    let mut found: Option<usize> = None;
    let mut i: usize = 0;
    assert(entries_of(read@.take(0)).len() == 0);
    while i < read.len()
        invariant
            i <= read@.len(),
            match found {
                Some(k) => k < i && first_name(
                    entries_of(read@.take(i as int)),
                    setting,
                ) == Some(read@[k as int].name@) && entry_of(
                    entries_of(read@.take(i as int)),
                    setting,
                ) == Some(
                    Entry {
                        setting: read@[k as int].setting,
                        name: read@[k as int].name@,
                        value: read@[k as int].value@,
                    },
                ),
                None => first_name(entries_of(read@.take(i as int)), setting) is None && entry_of(
                    entries_of(read@.take(i as int)),
                    setting,
                ) is None,
            },
        decreases read@.len() - i,
    {
        proof {
            lemma_entries_take(read@, i as int);
        }
        if found.is_none() && read[i].setting == setting {
            found = Some(i);
        }
        i = i + 1;
    }
    assert(read@.take(read@.len() as int) =~= read@);
    found
}

fn is_there(read: &Vec<Read>, setting: AzureSetting) -> (answer: bool)
    ensures
        answer == sets(entries_of(read@), setting),
{
    place_of(read, setting).is_some()
}

fn scan_variables(variables: &Vec<AzureVariable>) -> (out: Result<Vec<Read>, AzureRefusal>)
    ensures
        match out {
            Ok(read) => scan(variables@) == Scan::Settings(entries_of(read@)),
            Err(refusal) => scan(variables@) == Scan::Refused(refusal@),
        },
{
    let mut read: Vec<Read> = Vec::new();
    let mut i: usize = 0;
    assert(entries_of(read@) =~= Seq::<Entry>::empty());
    assert(variables@.take(0).len() == 0);
    while i < variables.len()
        invariant
            i <= variables@.len(),
            scan(variables@.take(i as int)) == Scan::Settings(entries_of(read@)),
        decreases variables@.len() - i,
    {
        let v = &variables[i];
        let ghost entries = entries_of(read@);
        proof {
            assert(variables@.take(i + 1).drop_last() =~= variables@.take(i as int));
            assert(variables@.take(i + 1).last() == *v);
        }
        match v.setting {
            None => {},
            Some(setting) => {
                let public = public_cloud();
                let mut refusal: Option<AzureRefusal> = None;
                let mut value = v.value.clone();
                match setting {
                    AzureSetting::Other => {
                        refusal = Some(AzureRefusal::Setting(v.name.clone()));
                    },
                    AzureSetting::AuthorityHost => {
                        let slashed = text::concat(public, "/");
                        if !text::same_text(v.value.as_str(), public) && !text::same_text(
                            v.value.as_str(),
                            slashed.as_str(),
                        ) {
                            refusal = Some(AzureRefusal::Authority(v.name.clone()));
                        } else {
                            value = public.to_owned();
                        }
                    },
                    _ => {},
                }
                match refusal {
                    Some(refusal) => {
                        proof {
                            lemma_refused(variables@, i + 1, refusal@);
                        }
                        return Err(refusal);
                    },
                    None => {},
                }
                match place_of(&read, setting) {
                    Some(place) => {
                        let refusal = AzureRefusal::Alias(read[place].name.clone(), v.name.clone());
                        proof {
                            lemma_refused(variables@, i + 1, refusal@);
                        }
                        return Err(refusal);
                    },
                    None => {},
                }
                let ghost before = read@;
                let r = Read { setting, name: v.name.clone(), value };
                proof {
                    lemma_entries_push(before, r);
                }
                read.push(r);
            },
        }
        i = i + 1;
    }
    assert(variables@.take(variables@.len() as int) =~= variables@);
    Ok(read)
}

/// A refusal of the first variables is one of all.
proof fn lemma_refused(variables: Seq<AzureVariable>, i: int, refusal: AzureRefusalView)
    requires
        0 <= i <= variables.len(),
        scan(variables.take(i)) == Scan::Refused(refusal),
    ensures
        scan(variables) == Scan::Refused(refusal),
    decreases variables.len() - i,
{
    if i == variables.len() {
        assert(variables.take(i) =~= variables);
    } else {
        assert(variables.take(i + 1).drop_last() =~= variables.take(i));
        lemma_refused(variables, i + 1, refusal);
    }
}

fn selectors(read: &Vec<Read>) -> (names: Vec<String>)
    ensures
        text::views(names@) == selector_names(entries_of(read@)),
{
    let mut names: Vec<String> = Vec::new();
    let mut i: usize = 0;
    assert(text::views(names@) =~= selector_names(entries_of(read@.take(0))));
    while i < read.len()
        invariant
            i <= read@.len(),
            text::views(names@) == selector_names(entries_of(read@.take(i as int))),
        decreases read@.len() - i,
    {
        let ghost before = names@;
        proof {
            lemma_entries_take(read@, i as int);
        }
        let selects: bool = match read[i].setting {
            AzureSetting::ClientId => true,
            AzureSetting::ObjectId => true,
            AzureSetting::MsiResourceId => true,
            _ => false,
        };
        if selects {
            names.push(read[i].name.clone());
            assert(text::views(names@) =~= text::views(before).push(read@[i as int].name@));
        }
        i = i + 1;
    }
    assert(read@.take(read@.len() as int) =~= read@);
    names
}

fn switch(value: &str) -> (on: Option<bool>)
    ensures
        on == switch_of(value@),
{
    let lowered = text::string_of(&text::lowered(&text::chars_of(value)));
    let s = lowered.as_str();
    if text::same_text(s, "true") || text::same_text(s, "1") {
        Some(true)
    } else if text::same_text(s, "false") || text::same_text(s, "0") {
        Some(false)
    } else {
        None
    }
}

fn settings_of(read: &Vec<Read>) -> (settings: Vec<(AzureSetting, String)>)
    ensures
        setting_views(settings@) == handed_on(entries_of(read@)),
{
    let mut settings: Vec<(AzureSetting, String)> = Vec::new();
    let mut i: usize = 0;
    assert(setting_views(settings@) =~= handed_on(entries_of(read@.take(0))));
    while i < read.len()
        invariant
            i <= read@.len(),
            setting_views(settings@) == handed_on(entries_of(read@.take(i as int))),
        decreases read@.len() - i,
    {
        let ghost before = settings@;
        proof {
            lemma_entries_take(read@, i as int);
        }
        match read[i].setting {
            AzureSetting::UseEmulator => {},
            setting => {
                settings.push((setting, read[i].value.clone()));
                assert(setting_views(settings@) =~= setting_views(before).push(
                    (setting, read@[i as int].value@),
                ));
            },
        }
        i = i + 1;
    }
    assert(read@.take(read@.len() as int) =~= read@);
    settings
}

/// How an Azure client is built for a container from variables whose settings are
/// known, or why they are refused.
pub fn azure_plan(variables: &Vec<AzureVariable>, container: &str) -> (out: Result<
    AzurePlan,
    AzureRefusal,
>)
    ensures
        is_plan(out, variables@, container@),
{
    let read = match scan_variables(variables) {
        Ok(read) => read,
        Err(refusal) => {
            return Err(refusal);
        },
    };
    let account_key: bool = is_there(&read, AzureSetting::AccessKey);
    let client_id: bool = is_there(&read, AzureSetting::ClientId);
    let authority_id: bool = is_there(&read, AzureSetting::AuthorityId);
    let token_file: bool = is_there(&read, AzureSetting::FederatedTokenFile);
    let workload_specific: bool = authority_id || is_there(&read, AzureSetting::AuthorityHost)
        || token_file;
    let managed_specific: bool = is_there(&read, AzureSetting::ObjectId) || is_there(
        &read,
        AzureSetting::MsiResourceId,
    );
    if (account_key && (client_id || workload_specific || managed_specific)) || (workload_specific
        && managed_specific) {
        return Err(AzureRefusal::Mixed);
    }
    let names = selectors(&read);
    if !workload_specific && names.len() > 1 {
        return Err(AzureRefusal::Selectors(names));
    }
    if workload_specific && !(client_id && authority_id && token_file) {
        return Err(AzureRefusal::Workload);
    }
    let account: bool = is_there(&read, AzureSetting::AccountName);
    let emulator: Option<bool> = match place_of(&read, AzureSetting::UseEmulator) {
        Some(place) => {
            let value = read[place].value.as_str();
            match switch(value) {
                None => {
                    let lowered = text::lowered(&text::chars_of(value));
                    return Err(
                        AzureRefusal::Emulator(
                            read[place].name.clone(),
                            text::string_of(&lowered),
                        ),
                    );
                },
                Some(on) => Some(on),
            }
        },
        None => None,
    };
    let emulated: bool = match emulator {
        Some(on) => on,
        None => false,
    };
    if !emulated && !account {
        return Err(AzureRefusal::NoAccount);
    }
    Ok(AzurePlan { settings: settings_of(&read), emulator, container: container.to_owned() })
}

/// The variables of an environment, each with the setting that its name, in lower
/// case, is for.
pub open spec fn known(env: AzureEnv, variables: Seq<AzureVariable>) -> bool {
    &&& variables.len() == env.variables@.len()
    &&& forall|i: int|
        0 <= i < variables.len() ==> {
            &&& (#[trigger] variables[i]).name@ == env.variables@[i].0@
            &&& variables[i].value@ == env.variables@[i].1@
            &&& variables[i].setting == azure_key_of(text::lower_all(env.variables@[i].0@))
        }
}

fn known_variables(env: &AzureEnv) -> (variables: Vec<AzureVariable>)
    ensures
        known(*env, variables@),
{
    let mut variables: Vec<AzureVariable> = Vec::new();
    let mut i: usize = 0;
    while i < env.variables.len()
        invariant
            i <= env.variables@.len(),
            variables@.len() == i,
            forall|k: int|
                0 <= k < i ==> {
                    &&& (#[trigger] variables@[k]).name@ == env.variables@[k].0@
                    &&& variables@[k].value@ == env.variables@[k].1@
                    &&& variables@[k].setting == azure_key_of(
                        text::lower_all(env.variables@[k].0@),
                    )
                },
        decreases env.variables@.len() - i,
    {
        let name = text::chars_of(env.variables[i].0.as_str());
        let lowered = text::string_of(&text::lowered(&name));
        variables.push(
            AzureVariable {
                setting: azure_setting(lowered.as_str()),
                name: env.variables[i].0.clone(),
                value: env.variables[i].1.clone(),
            },
        );
        i = i + 1;
    }
    variables
}

/// How an Azure client is built for a container from an environment, or why the
/// environment is refused.
pub fn azure_builder_for(env: &AzureEnv, container: &str) -> (out: Result<AzurePlan, AzureRefusal>)
    ensures
        exists|variables: Seq<AzureVariable>| #[trigger]
            known(*env, variables) && is_plan(out, variables, container@),
{
    let variables = known_variables(env);
    azure_plan(&variables, container)
}

/// The plan of a replica's store, which is that of its bucket, and its retry policy,
/// which is that of every replica: its writes are plain puts.
pub fn azure_replica_store(env: &AzureEnv, container: &str) -> (out: Result<
    (AzurePlan, RetryPolicy),
    AzureRefusal,
>)
    ensures
        match out {
            Ok((plan, retry)) => {
                &&& exists|variables: Seq<AzureVariable>| #[trigger]
                    known(*env, variables) && is_plan(Ok(plan), variables, container@)
                &&& retry == (RetryPolicy { max_retries: 3, retry_timeout_seconds: 30 })
            },
            Err(refusal) => exists|variables: Seq<AzureVariable>| #[trigger]
                known(*env, variables) && is_plan(Err(refusal), variables, container@),
        },
{
    match azure_builder_for(env, container) {
        Ok(plan) => Ok((plan, replica_retry_config())),
        Err(refusal) => Err(refusal),
    }
}

/// The pairs whose value is not empty.
pub open spec fn set_pairs(pairs: Seq<(String, String)>) -> Seq<(String, String)>
    decreases pairs.len(),
{
    if pairs.len() == 0 {
        Seq::empty()
    } else {
        let before = set_pairs(pairs.drop_last());
        if pairs.last().1@.len() > 0 {
            before.push(pairs.last())
        } else {
            before
        }
    }
}

/// The views of pairs.
pub open spec fn pair_views(pairs: Seq<(String, String)>) -> Seq<(Seq<char>, Seq<char>)> {
    pairs.map_values(|p: (String, String)| (p.0@, p.1@))
}

impl AzureEnv {
    /// The variables among pairs of names and values: an empty value counts as
    /// missing.
    pub fn from_pairs(pairs: &Vec<(String, String)>) -> (env: AzureEnv)
        ensures
            pair_views(env.variables@) == pair_views(set_pairs(pairs@)),
    {
        let mut variables: Vec<(String, String)> = Vec::new();
        let mut i: usize = 0;
        assert(pair_views(variables@) =~= pair_views(set_pairs(pairs@.take(0))));
        while i < pairs.len()
            invariant
                i <= pairs@.len(),
                pair_views(variables@) == pair_views(set_pairs(pairs@.take(i as int))),
            decreases pairs@.len() - i,
        {
            let ghost before = variables@;
            let ghost set = set_pairs(pairs@.take(i as int));
            proof {
                assert(pairs@.take(i + 1).drop_last() =~= pairs@.take(i as int));
                assert(pairs@.take(i + 1).last() == pairs@[i as int]);
            }
            let value = text::chars_of(pairs[i].1.as_str());
            if value.len() > 0 {
                variables.push((pairs[i].0.clone(), pairs[i].1.clone()));
                proof {
                    let pair = (pairs@[i as int].0@, pairs@[i as int].1@);
                    assert(pair_views(variables@) =~= pair_views(before).push(pair));
                    assert(pair_views(set.push(pairs@[i as int])) =~= pair_views(set).push(pair));
                }
            }
            i = i + 1;
        }
        assert(pairs@.take(pairs@.len() as int) =~= pairs@);
        AzureEnv { variables }
    }
}

/// A plan never mixes credentials: with an account key there is no setting of an
/// identity, and a workload identity's settings never stand beside those of a
/// managed one.
pub proof fn law_one_family_of_credentials(
    plan: AzurePlan,
    variables: Seq<AzureVariable>,
    container: Seq<char>,
)
    requires
        is_plan(Ok(plan), variables, container),
    ensures
        scan(variables) matches Scan::Settings(entries) && {
            &&& sets(entries, AzureSetting::AccessKey) ==> !sets(entries, AzureSetting::ClientId)
                && !workload(entries) && !managed(entries)
            &&& workload(entries) ==> !managed(entries) && sets(entries, AzureSetting::ClientId)
                && sets(entries, AzureSetting::AuthorityId) && sets(
                entries,
                AzureSetting::FederatedTokenFile,
            )
            &&& !workload(entries) ==> selector_names(entries).len() <= 1
        },
{
}

/// Nothing but the accepted settings reaches the client.
pub proof fn law_only_accepted_settings(variables: Seq<AzureVariable>, entries: Seq<Entry>)
    requires
        scan(variables) == Scan::Settings(entries),
    ensures
        forall|i: int|
            0 <= i < entries.len() ==> !((#[trigger] entries[i]).setting is Other) && (
            entries[i].setting is AuthorityHost ==> entries[i].value == public_authority()),
    decreases variables.len(),
{
    if variables.len() > 0 {
        let before = match scan(variables.drop_last()) {
            Scan::Settings(e) => e,
            Scan::Refused(_) => Seq::empty(),
        };
        law_only_accepted_settings(variables.drop_last(), before);
        assert forall|i: int| 0 <= i < entries.len() implies !((#[trigger] entries[i]).setting
            is Other) && (entries[i].setting is AuthorityHost ==> entries[i].value
            == public_authority()) by {
            if i < before.len() {
                assert(entries[i] == before[i]);
            }
        }
    }
}

/// Without the emulator there is a storage account.
pub proof fn law_production_names_its_account(
    plan: AzurePlan,
    variables: Seq<AzureVariable>,
    container: Seq<char>,
)
    requires
        is_plan(Ok(plan), variables, container),
        plan.emulator != Some(true),
    ensures
        scan(variables) matches Scan::Settings(entries) && sets(entries, AzureSetting::AccountName),
{
}

/// A setting is set where some variable names it, under the name and with the value of the
/// first that does.
pub proof fn law_first_name_counts(entries: Seq<Entry>, entry: Entry, setting: AzureSetting)
    ensures
        !sets(Seq::<Entry>::empty(), setting),
        sets(entries.push(entry), setting) <==> sets(entries, setting) || entry.setting == setting,
        sets(entries, setting) ==> first_name(entries.push(entry), setting) == first_name(
            entries,
            setting,
        ) && entry_of(entries.push(entry), setting) == entry_of(entries, setting),
        !sets(entries, setting) && entry.setting == setting ==> first_name(
            entries.push(entry),
            setting,
        ) == Some(entry.name) && entry_of(entries.push(entry), setting) == Some(entry),
        sets(entries, setting) <==> entry_of(entries, setting) is Some,
    decreases entries.len(),
{
    assert(entries.push(entry).drop_last() =~= entries);
    if entries.len() > 0 {
        law_first_name_counts(entries.drop_last(), entries.last(), setting);
        assert(entries.drop_last().push(entries.last()) =~= entries);
    }
}

/// What a further variable does: one that names no setting changes nothing; one that Azure
/// knows and this store does not accept is refused, as is an authority that is not the public
/// one, and a second name of a setting; any other adds its setting with its value. What was
/// refused stays refused.
pub proof fn law_variables_are_read_one_by_one(
    variables: Seq<AzureVariable>,
    entries: Seq<Entry>,
    v: AzureVariable,
)
    requires
        scan(variables) == Scan::Settings(entries),
    ensures
        scan(Seq::<AzureVariable>::empty()) == Scan::Settings(Seq::empty()),
        ({
            let next = scan(variables.push(v));
            let authority = "https://login.microsoftonline.com"@;
            match v.setting {
                None => next == Scan::Settings(entries),
                Some(setting) => if setting is Other {
                    next == Scan::Refused(AzureRefusalView::Setting(v.name@))
                } else if setting is AuthorityHost && v.value@ != authority && v.value@ != authority
                    + "/"@ {
                    next == Scan::Refused(AzureRefusalView::Authority(v.name@))
                } else if sets(entries, setting) {
                    next == Scan::Refused(
                        AzureRefusalView::Alias(first_name(entries, setting)->0, v.name@),
                    )
                } else {
                    next matches Scan::Settings(more) && {
                        &&& more.len() == entries.len() + 1 && more.drop_last() == entries
                        &&& more.last().setting == setting && more.last().name == v.name@
                        &&& !(setting is AuthorityHost) ==> more.last().value == v.value@
                        &&& setting is AuthorityHost ==> more.last().value == authority
                    }
                },
            }
        }),
{
    assert(variables.push(v).drop_last() =~= variables);
    if let Scan::Settings(more) = scan(variables.push(v)) {
        if more.len() > entries.len() {
            assert(more.drop_last() =~= entries);
        }
    }
}

/// Which configurations are accepted: one family of credentials alone, complete, with the
/// account named unless the emulator is used. A key, a managed identity with one selector at
/// most, and a workload identity with its three settings are each accepted; nothing else is.
pub proof fn law_accepted_configurations(entries: Seq<Entry>)
    ensures
        ({
            let key = sets(entries, AzureSetting::AccessKey);
            let client = sets(entries, AzureSetting::ClientId);
            let object = sets(entries, AzureSetting::ObjectId);
            let msi = sets(entries, AzureSetting::MsiResourceId);
            let tenant = sets(entries, AzureSetting::AuthorityId);
            let host = sets(entries, AzureSetting::AuthorityHost);
            let file = sets(entries, AzureSetting::FederatedTokenFile);
            let by_workload = tenant || host || file;
            let emulator = entry_of(entries, AzureSetting::UseEmulator);
            let account = sets(entries, AzureSetting::AccountName) || (emulator is Some
                && switch_of(emulator->0.value) == Some(true));
            refusal_of(entries) is None <==> {
                &&& key ==> !client && !by_workload && !object && !msi
                &&& by_workload ==> client && tenant && file && !object && !msi
                &&& !by_workload ==> selector_names(entries).len() <= 1
                &&& emulator is Some ==> switch_of(emulator->0.value) is Some
                &&& account
            }
        }),
{
}

/// A managed identity's selectors are its client, its object and its resource, by the names
/// that were used; every setting but the emulator's switch is handed on with its value, in
/// order; and the switch is one of four words in any case.
pub proof fn law_settings_are_handed_on(entries: Seq<Entry>, entry: Entry, value: Seq<char>)
    ensures
        selector_names(Seq::<Entry>::empty()).len() == 0,
        selector_names(entries.push(entry)) == (if entry.setting is ClientId || entry.setting
            is ObjectId || entry.setting is MsiResourceId {
            selector_names(entries).push(entry.name)
        } else {
            selector_names(entries)
        }),
        handed_on(Seq::<Entry>::empty()).len() == 0,
        handed_on(entries.push(entry)) == (if entry.setting is UseEmulator {
            handed_on(entries)
        } else {
            handed_on(entries).push((entry.setting, entry.value))
        }),
        switch_of(value) == Some(true) <==> text::lower_all(value) == "true"@ || text::lower_all(
            value,
        ) == "1"@,
        switch_of(value) is None ==> text::lower_all(value) != "false"@ && text::lower_all(value)
            != "0"@,
        switch_of(value) == Some(false) ==> text::lower_all(value) == "false"@ || text::lower_all(
            value,
        ) == "0"@,
{
    assert(entries.push(entry).drop_last() =~= entries);
}

/// A variable that is set to nothing counts as not set.
pub proof fn law_empty_variables_do_not_count(pairs: Seq<(String, String)>, pair: (String, String))
    ensures
        set_pairs(Seq::<(String, String)>::empty()).len() == 0,
        pair.1@.len() > 0 ==> set_pairs(pairs.push(pair)) == set_pairs(pairs).push(pair),
        pair.1@.len() == 0 ==> set_pairs(pairs.push(pair)) == set_pairs(pairs),
{
    assert(pairs.push(pair).drop_last() =~= pairs);
}

/// A variable's setting is what Azure knows its name for, in any case.
pub proof fn law_variables_are_known(env: AzureEnv, variables: Seq<AzureVariable>, i: int)
    requires
        known(env, variables),
        0 <= i < variables.len(),
    ensures
        variables.len() == env.variables@.len(),
        variables[i].name@ == env.variables@[i].0@ && variables[i].value@ == env.variables@[i].1@,
        variables[i].setting == azure_key_of(text::lower_all(env.variables@[i].0@)),
{
}

} // verus!
