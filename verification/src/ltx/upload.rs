//! The upload of a file to a replica, and the credentials that a replica's store
//! takes from the environment.

use vstd::prelude::*;

use crate::ltx::client;
use crate::ltx::client::ObjectStoreConfig;
use crate::ltx::client::TimestampMetadataKey;
use crate::ltx::db::FileInfo;
use crate::ltx::reader;
use crate::text;

verus! {

broadcast use vstd::string::group_string_axioms;

/// How a file is uploaded.
pub struct UploadPlan {
    pub key: String,
    /// The metadata that carries the file's timestamp.
    pub metadata_name: &'static str,
    pub metadata_value: String,
    /// The parts, or nothing where the file goes at once.
    pub parts: Option<Vec<(usize, usize)>>,
    /// What is known of the file once it is there.
    pub info: FileInfo,
}

/// A timestamp that a file can have: one before 1970 counts as its start.
pub open spec fn since_epoch(timestamp: i64) -> i64 {
    if timestamp > 0 {
        timestamp
    } else {
        0
    }
}

impl ObjectStoreConfig {
    /// How a file is uploaded; nothing where its timestamp cannot be written down.
    pub fn write_ltx_file(
        &self,
        level: i32,
        min_txid: u64,
        max_txid: u64,
        filename: &str,
        len: usize,
        timestamp: i64,
    ) -> (plan: Option<UploadPlan>)
        requires
            len <= i64::MAX,
        ensures
            match (plan, reader::rfc3339_of(since_epoch(timestamp))) {
                (Some(plan), Some(moment)) => {
                    &&& plan.key@ == client::level_prefix_of(self.path@, level) + filename@
                    &&& plan.metadata_name@ == match self.timestamp_metadata_key {
                        TimestampMetadataKey::Litestream => client::METADATA_KEY_TIMESTAMP@,
                        TimestampMetadataKey::Underscore =>
                            client::METADATA_KEY_TIMESTAMP_UNDERSCORE@,
                    }
                    &&& plan.metadata_value@ == reader::without_zeros(moment)
                    &&& match plan.parts {
                        None => len < client::MULTIPART_THRESHOLD,
                        Some(parts) => {
                            &&& len >= client::MULTIPART_THRESHOLD
                            &&& client::chunks(
                                parts@,
                                len as int,
                                if client::part_size(*self) > client::MULTIPART_THRESHOLD {
                                    client::part_size(*self) as int
                                } else {
                                    client::MULTIPART_THRESHOLD as int
                                },
                            )
                        },
                    }
                    &&& plan.info == (FileInfo {
                        level,
                        min_txid,
                        max_txid,
                        pre_apply_checksum: 0,
                        post_apply_checksum: 0,
                        size: len as i64,
                        created_at: Some(since_epoch(timestamp)),
                    })
                },
                (None, None) => true,
                _ => false,
            },
    {
        let metadata_value = match reader::format_rfc3339_nano(timestamp) {
            Some(value) => value,
            None => {
                return None;
            },
        };
        let created_at: i64 = if timestamp > 0 {
            timestamp
        } else {
            0
        };
        Some(
            UploadPlan {
                key: self.ltx_key(level, filename),
                metadata_name: self.timestamp_metadata_key.as_str(),
                metadata_value,
                parts: self.upload_parts(len),
                info: FileInfo {
                    level,
                    min_txid,
                    max_txid,
                    pre_apply_checksum: 0,
                    post_apply_checksum: 0,
                    size: len as i64,
                    created_at: Some(created_at),
                },
            },
        )
    }
}

/// What an upload in parts does next.
#[derive(Clone, Copy, Debug, PartialEq, Eq, Structural)]
pub enum UploadAction {
    /// Send the bytes from one place to another.
    Part { from: usize, to: usize },
    Complete,
    /// Give the upload up, so that the store keeps none of its parts.
    Abort,
}

/// What an upload in parts does next, after so many parts, and whether one failed.
pub fn upload_next(parts: &Vec<(usize, usize)>, sent: usize, failed: bool) -> (action: UploadAction)
    ensures
        action == if failed {
            UploadAction::Abort
        } else if sent < parts@.len() {
            UploadAction::Part { from: parts@[sent as int].0, to: parts@[sent as int].1 }
        } else {
            UploadAction::Complete
        },
{
    if failed {
        UploadAction::Abort
    } else if sent < parts.len() {
        UploadAction::Part { from: parts[sent].0, to: parts[sent].1 }
    } else {
        UploadAction::Complete
    }
}

/// A credential input that a store's client takes.
#[derive(Clone, Copy, Debug, PartialEq, Eq, Structural)]
pub enum CredentialSetting {
    ContainerCredentialsRelativeUri,
    ContainerCredentialsFullUri,
    ContainerAuthorizationTokenFile,
    WebIdentityTokenFile,
    RoleArn,
    RoleSessionName,
    StsEndpoint,
    MetadataEndpoint,
}

/// The variable that a credential input comes from.
pub open spec fn variable_of(setting: CredentialSetting) -> Seq<char> {
    match setting {
        CredentialSetting::ContainerCredentialsRelativeUri =>
            "AWS_CONTAINER_CREDENTIALS_RELATIVE_URI"@,
        CredentialSetting::ContainerCredentialsFullUri => "AWS_CONTAINER_CREDENTIALS_FULL_URI"@,
        CredentialSetting::ContainerAuthorizationTokenFile =>
            "AWS_CONTAINER_AUTHORIZATION_TOKEN_FILE"@,
        CredentialSetting::WebIdentityTokenFile => "AWS_WEB_IDENTITY_TOKEN_FILE"@,
        CredentialSetting::RoleArn => "AWS_ROLE_ARN"@,
        CredentialSetting::RoleSessionName => "AWS_ROLE_SESSION_NAME"@,
        CredentialSetting::StsEndpoint => "AWS_ENDPOINT_URL_STS"@,
        CredentialSetting::MetadataEndpoint => "AWS_METADATA_ENDPOINT"@,
    }
}

/// The credential inputs, in the order in which they are handed on.
pub open spec fn credential_inputs() -> Seq<CredentialSetting> {
    seq![
        CredentialSetting::ContainerCredentialsRelativeUri,
        CredentialSetting::ContainerCredentialsFullUri,
        CredentialSetting::ContainerAuthorizationTokenFile,
        CredentialSetting::WebIdentityTokenFile,
        CredentialSetting::RoleArn,
        CredentialSetting::RoleSessionName,
        CredentialSetting::StsEndpoint,
        CredentialSetting::MetadataEndpoint,
    ]
}

/// The value of a variable: that of the first entry with its name.
pub open spec fn value_of(env: Seq<(String, String)>, name: Seq<char>) -> Option<Seq<char>>
    decreases env.len(),
{
    if env.len() == 0 {
        None
    } else if env[0].0@ == name {
        Some(env[0].1@)
    } else {
        value_of(env.skip(1), name)
    }
}

/// The inputs that are handed on: those whose variable is set, and not empty.
pub open spec fn handed_on(settings: Seq<CredentialSetting>, env: Seq<(String, String)>) -> Seq<
    (CredentialSetting, Seq<char>),
>
    decreases settings.len(),
{
    if settings.len() == 0 {
        Seq::empty()
    } else {
        let before = handed_on(settings.drop_last(), env);
        match value_of(env, variable_of(settings.last())) {
            Some(value) => if value.len() > 0 {
                before.push((settings.last(), value))
            } else {
                before
            },
            None => before,
        }
    }
}

impl CredentialSetting {
    /// The variable that the input comes from.
    pub fn variable(self) -> (name: &'static str)
        ensures
            name@ == variable_of(self),
    {
        match self {
            CredentialSetting::ContainerCredentialsRelativeUri =>
                "AWS_CONTAINER_CREDENTIALS_RELATIVE_URI",
            CredentialSetting::ContainerCredentialsFullUri => "AWS_CONTAINER_CREDENTIALS_FULL_URI",
            CredentialSetting::ContainerAuthorizationTokenFile =>
                "AWS_CONTAINER_AUTHORIZATION_TOKEN_FILE",
            CredentialSetting::WebIdentityTokenFile => "AWS_WEB_IDENTITY_TOKEN_FILE",
            CredentialSetting::RoleArn => "AWS_ROLE_ARN",
            CredentialSetting::RoleSessionName => "AWS_ROLE_SESSION_NAME",
            CredentialSetting::StsEndpoint => "AWS_ENDPOINT_URL_STS",
            CredentialSetting::MetadataEndpoint => "AWS_METADATA_ENDPOINT",
        }
    }
}

fn look_up(env: &Vec<(String, String)>, name: &str) -> (value: Option<String>)
    ensures
        match value {
            Some(value) => value_of(env@, name@) == Some(value@),
            None => value_of(env@, name@) is None,
        },
{
    let mut i: usize = 0;
    assert(env@.skip(0) =~= env@);
    while i < env.len()
        invariant
            i <= env@.len(),
            value_of(env@, name@) == value_of(env@.skip(i as int), name@),
        decreases env@.len() - i,
    {
        assert(env@.skip(i as int)[0] == env@[i as int]);
        assert(env@.skip(i as int).skip(1) =~= env@.skip(i + 1));
        if text::same_text(env[i].0.as_str(), name) {
            return Some(env[i].1.clone());
        }
        i = i + 1;
    }
    None
}

/// Settings with their values as mathematical values.
pub open spec fn setting_views(settings: Seq<(CredentialSetting, String)>) -> Seq<
    (CredentialSetting, Seq<char>),
> {
    settings.map_values(|entry: (CredentialSetting, String)| (entry.0, entry.1@))
}

/// The credential inputs that a replica's store takes from the environment. Nothing
/// else of the environment reaches it.
pub fn credential_settings(env: &Vec<(String, String)>) -> (settings: Vec<
    (CredentialSetting, String),
>)
    ensures
        setting_views(settings@) == handed_on(credential_inputs(), env@),
{
    let inputs: [CredentialSetting; 8] = [
        CredentialSetting::ContainerCredentialsRelativeUri,
        CredentialSetting::ContainerCredentialsFullUri,
        CredentialSetting::ContainerAuthorizationTokenFile,
        CredentialSetting::WebIdentityTokenFile,
        CredentialSetting::RoleArn,
        CredentialSetting::RoleSessionName,
        CredentialSetting::StsEndpoint,
        CredentialSetting::MetadataEndpoint,
    ];
    let ghost all = credential_inputs();
    assert(inputs@ =~= all);
    let mut settings: Vec<(CredentialSetting, String)> = Vec::new();
    let mut i: usize = 0;
    proof {
        assert(all.take(0).len() == 0);
        assert(setting_views(settings@) =~= handed_on(all.take(0), env@));
    }
    while i < 8
        invariant
            i <= 8,
            all.len() == 8,
            inputs@ == all,
            setting_views(settings@) == handed_on(all.take(i as int), env@),
        decreases 8 - i,
    {
        let ghost before = settings@;
        let setting = inputs[i];
        proof {
            assert(all.take(i + 1).drop_last() =~= all.take(i as int));
            assert(all.take(i + 1).last() == setting);
        }
        match look_up(env, setting.variable()) {
            Some(value) => {
                if text::chars_of(value.as_str()).len() > 0 {
                    let ghost pair = (setting, value@);
                    settings.push((setting, value));
                    assert(setting_views(settings@) =~= setting_views(before).push(pair));
                }
            },
            None => {},
        }
        i = i + 1;
    }
    assert(all.take(8) =~= all);
    settings
}

/// A moment before the epoch is taken for the epoch, and any other as it is.
pub proof fn law_moments_begin_at_the_epoch(timestamp: i64)
    ensures
        since_epoch(timestamp) >= 0,
        timestamp >= 0 ==> since_epoch(timestamp) == timestamp,
        timestamp < 0 ==> since_epoch(timestamp) == 0,
{
}

/// A variable's value is that of its first entry in the environment.
pub proof fn law_first_entry_counts(env: Seq<(String, String)>, name: Seq<char>, i: int)
    requires
        0 <= i < env.len(),
        env[i].0@ == name,
        forall|j: int| 0 <= j < i ==> (#[trigger] env[j]).0@ != name,
    ensures
        value_of(env, name) == Some(env[i].1@),
    decreases i,
{
    if i > 0 {
        assert(env[0].0@ != name);
        assert forall|j: int| 0 <= j < i - 1 implies (#[trigger] env.skip(1)[j]).0@ != name by {
            assert(env[j + 1].0@ != name);
        }
        law_first_entry_counts(env.skip(1), name, i - 1);
    }
}

proof fn lemma_no_entry(env: Seq<(String, String)>, name: Seq<char>)
    requires
        forall|j: int| 0 <= j < env.len() ==> (#[trigger] env[j]).0@ != name,
    ensures
        value_of(env, name) is None,
    decreases env.len(),
{
    if env.len() > 0 {
        assert(env[0].0@ != name);
        assert forall|j: int| 0 <= j < env.skip(1).len() implies (#[trigger] env.skip(1)[j]).0@
            != name by {
            assert(env[j + 1].0@ != name);
        }
        lemma_no_entry(env.skip(1), name);
    }
}

/// Which credential settings are handed on: each one whose variable is set to something, with
/// that value, in the order of the list; one that is not set, or set to nothing, is left out.
pub proof fn law_set_credentials_are_handed_on(
    settings: Seq<CredentialSetting>,
    setting: CredentialSetting,
    env: Seq<(String, String)>,
)
    ensures
        handed_on(Seq::<CredentialSetting>::empty(), env).len() == 0,
        ({
            let value = value_of(env, variable_of(setting));
            let before = handed_on(settings, env);
            handed_on(settings.push(setting), env) == (if value is Some && value->0.len() > 0 {
                before.push((setting, value->0))
            } else {
                before
            })
        }),
        (forall|j: int| 0 <= j < env.len() ==> (#[trigger] env[j]).0@ != variable_of(setting))
            ==> handed_on(settings.push(setting), env) == handed_on(settings, env),
{
    assert(settings.push(setting).drop_last() =~= settings);
    if forall|j: int| 0 <= j < env.len() ==> (#[trigger] env[j]).0@ != variable_of(setting) {
        lemma_no_entry(env, variable_of(setting));
    }
}

/// Every credential setting is looked for, under the name that the AWS tools give it.
pub proof fn law_every_credential_is_looked_for(setting: CredentialSetting)
    ensures
        credential_inputs().contains(setting),
        credential_inputs().no_duplicates(),
        text::begins_with(variable_of(setting), "AWS_"@),
        setting is ContainerCredentialsRelativeUri ==> variable_of(setting)
            == "AWS_CONTAINER_CREDENTIALS_RELATIVE_URI"@,
        setting is ContainerCredentialsFullUri ==> variable_of(setting)
            == "AWS_CONTAINER_CREDENTIALS_FULL_URI"@,
        setting is ContainerAuthorizationTokenFile ==> variable_of(setting)
            == "AWS_CONTAINER_AUTHORIZATION_TOKEN_FILE"@,
        setting is WebIdentityTokenFile ==> variable_of(setting) == "AWS_WEB_IDENTITY_TOKEN_FILE"@,
        setting is RoleArn ==> variable_of(setting) == "AWS_ROLE_ARN"@,
        setting is RoleSessionName ==> variable_of(setting) == "AWS_ROLE_SESSION_NAME"@,
        setting is StsEndpoint ==> variable_of(setting) == "AWS_ENDPOINT_URL_STS"@,
        setting is MetadataEndpoint ==> variable_of(setting) == "AWS_METADATA_ENDPOINT"@,
{
    let all = credential_inputs();
    assert(all.len() == 8);
    assert(all[0] is ContainerCredentialsRelativeUri && all[1] is ContainerCredentialsFullUri
        && all[2] is ContainerAuthorizationTokenFile && all[3] is WebIdentityTokenFile && all[4]
        is RoleArn && all[5] is RoleSessionName && all[6] is StsEndpoint && all[7]
        is MetadataEndpoint);
    reveal_strlit("AWS_");
    reveal_strlit("AWS_CONTAINER_CREDENTIALS_RELATIVE_URI");
    reveal_strlit("AWS_CONTAINER_CREDENTIALS_FULL_URI");
    reveal_strlit("AWS_CONTAINER_AUTHORIZATION_TOKEN_FILE");
    reveal_strlit("AWS_WEB_IDENTITY_TOKEN_FILE");
    reveal_strlit("AWS_ROLE_ARN");
    reveal_strlit("AWS_ROLE_SESSION_NAME");
    reveal_strlit("AWS_ENDPOINT_URL_STS");
    reveal_strlit("AWS_METADATA_ENDPOINT");
    assert(variable_of(setting).subrange(0, 4) =~= "AWS_"@);
}

} // verus!
