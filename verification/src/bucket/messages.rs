//! What an operator is told of a bucket that is not opened.

use vstd::prelude::*;
use vstd::string::*;

use crate::bucket::azure;
use crate::bucket::azure::AzureRefusal;
use crate::bucket::azure::AzureRefusalView;
use crate::bucket::open::OpenError;
use crate::text;

verus! {

broadcast use vstd::string::group_string_axioms;

/// Names, with "and" between them.
pub open spec fn all_of(names: Seq<Seq<char>>) -> Seq<char>
    decreases names.len(),
{
    if names.len() == 0 {
        Seq::empty()
    } else if names.len() == 1 {
        names[0]
    } else {
        all_of(names.drop_last()) + " and "@ + names.last()
    }
}

/// What is said of a refusal of Azure settings.
pub open spec fn refusal_text(refusal: AzureRefusalView) -> Seq<char> {
    match refusal {
        AzureRefusalView::Setting(name) => "an az:// bucket does not accept "@ + name
            + "; celld authenticates with an Azure storage account key, a managed identity, or a workload identity on the public Azure cloud, and it refuses every other Azure setting"@,
        AzureRefusalView::Authority(name) => "an az:// bucket accepts "@ + name
            + " only for the public Azure authority "@ + azure::public_authority()
            + "; sovereign and custom authority hosts are not supported"@,
        AzureRefusalView::Alias(first, name) => "an az:// bucket does not accept both "@ + first
            + " and "@ + name + "; they are aliases for the same Azure setting"@,
        AzureRefusalView::Mixed =>
            "an az:// bucket does not accept mixed Azure credential families; select exactly one storage account key, workload identity, or managed identity"@,
        AzureRefusalView::Selectors(names) =>
            "an az:// bucket accepts one managed-identity selector, but "@ + all_of(names)
            + " name different identities; set exactly one of AZURE_CLIENT_ID, AZURE_OBJECT_ID, or AZURE_MSI_RESOURCE_ID"@,
        AzureRefusalView::Workload =>
            "an Azure workload identity requires AZURE_CLIENT_ID, AZURE_TENANT_ID, and AZURE_FEDERATED_TOKEN_FILE"@,
        AzureRefusalView::Emulator(name, value) => name + " accepts true or false, not "@
            + text::debug_text(value),
        AzureRefusalView::NoAccount =>
            "an az:// bucket names a container, so the storage account must come from AZURE_STORAGE_ACCOUNT_NAME"@,
    }
}

/// What is said of a bucket that is not opened.
pub open spec fn open_error_text(error: OpenError) -> Seq<char> {
    match error {
        OpenError::DevStore =>
            "dev:// storage is internal to `celld dev` and is not a fleet bucket"@,
        OpenError::Prefix(prefix) => "bucket prefix accepts only letters, digits and -_./: "@
            + text::debug_text(prefix@),
        OpenError::UserAgent => "app user agent"@,
        OpenError::GcsEndpoint =>
            "a gs:// bucket takes no S3 endpoint; unset --endpoint / S3_ENDPOINT"@,
        OpenError::GcsCredentials =>
            "a gs:// bucket cannot use S3 static credentials; it authenticates with Google Application Default Credentials"@,
        OpenError::AzureEndpoint =>
            "an az:// bucket takes no S3 endpoint; unset --endpoint / S3_ENDPOINT"@,
        OpenError::AzureCredentials =>
            "an az:// bucket cannot use S3 static credentials; it authenticates with an Azure storage account key, a managed identity, or a workload identity"@,
        OpenError::Azure(refusal) => refusal_text(refusal@),
    }
}

fn join_and(names: &Vec<String>) -> (out: String)
    ensures
        out@ == all_of(text::views(names@)),
{
    let mut out = String::new();
    let mut i: usize = 0;
    let ghost whole = text::views(names@);
    while i < names.len()
        invariant
            i <= names.len(),
            whole == text::views(names@),
            out@ == all_of(whole.take(i as int)),
        decreases names.len() - i,
    {
        proof {
            assert(whole.take(i + 1).drop_last() =~= whole.take(i as int));
            assert(whole.take(i + 1).last() == names[i as int]@);
        }
        if i > 0 {
            out.append(" and ");
        }
        out.append(names[i].as_str());
        proof {
            if i == 0 {
                assert(out@ =~= whole.take(1)[0]);
            }
        }
        i += 1;
    }
    proof {
        assert(whole.take(names.len() as int) =~= whole);
    }
    out
}

impl AzureRefusal {
    /// What an operator is told.
    pub fn message(&self) -> (out: String)
        ensures
            out@ == refusal_text(self@),
    {
        match self {
            AzureRefusal::Setting(name) => text::concat3(
                "an az:// bucket does not accept ",
                name.as_str(),
                "; celld authenticates with an Azure storage account key, a managed identity, or a workload identity on the public Azure cloud, and it refuses every other Azure setting",
            ),
            AzureRefusal::Authority(name) => {
                let mut out = text::concat3(
                    "an az:// bucket accepts ",
                    name.as_str(),
                    " only for the public Azure authority ",
                );
                out.append("https://login.microsoftonline.com");
                out.append("; sovereign and custom authority hosts are not supported");
                out
            },
            AzureRefusal::Alias(first, name) => {
                let mut out = text::concat3(
                    "an az:// bucket does not accept both ",
                    first.as_str(),
                    " and ",
                );
                out.append(name.as_str());
                out.append("; they are aliases for the same Azure setting");
                out
            },
            AzureRefusal::Mixed =>
                "an az:// bucket does not accept mixed Azure credential families; select exactly one storage account key, workload identity, or managed identity".to_owned(),
            AzureRefusal::Selectors(names) => {
                let all = join_and(names);
                text::concat3(
                    "an az:// bucket accepts one managed-identity selector, but ",
                    all.as_str(),
                    " name different identities; set exactly one of AZURE_CLIENT_ID, AZURE_OBJECT_ID, or AZURE_MSI_RESOURCE_ID",
                )
            },
            AzureRefusal::Workload =>
                "an Azure workload identity requires AZURE_CLIENT_ID, AZURE_TENANT_ID, and AZURE_FEDERATED_TOKEN_FILE".to_owned(),
            AzureRefusal::Emulator(name, value) => {
                let shown = text::debug_quoted(value.as_str());
                text::concat3(name.as_str(), " accepts true or false, not ", shown.as_str())
            },
            AzureRefusal::NoAccount =>
                "an az:// bucket names a container, so the storage account must come from AZURE_STORAGE_ACCOUNT_NAME".to_owned(),
        }
    }
}

impl OpenError {
    /// What an operator is told.
    pub fn message(&self) -> (out: String)
        ensures
            out@ == open_error_text(*self),
    {
        match self {
            OpenError::DevStore =>
                "dev:// storage is internal to `celld dev` and is not a fleet bucket".to_owned(),
            OpenError::Prefix(prefix) => {
                let shown = text::debug_quoted(prefix.as_str());
                text::concat(
                    "bucket prefix accepts only letters, digits and -_./: ",
                    shown.as_str(),
                )
            },
            OpenError::UserAgent => "app user agent".to_owned(),
            OpenError::GcsEndpoint =>
                "a gs:// bucket takes no S3 endpoint; unset --endpoint / S3_ENDPOINT".to_owned(),
            OpenError::GcsCredentials =>
                "a gs:// bucket cannot use S3 static credentials; it authenticates with Google Application Default Credentials".to_owned(),
            OpenError::AzureEndpoint =>
                "an az:// bucket takes no S3 endpoint; unset --endpoint / S3_ENDPOINT".to_owned(),
            OpenError::AzureCredentials =>
                "an az:// bucket cannot use S3 static credentials; it authenticates with an Azure storage account key, a managed identity, or a workload identity".to_owned(),
            OpenError::Azure(refusal) => refusal.message(),
        }
    }
}

/// Names are joined by a word between each two, in order.
pub proof fn law_names_are_joined(names: Seq<Seq<char>>, name: Seq<char>)
    ensures
        all_of(seq![name]) == name,
        names.len() > 0 ==> all_of(names.push(name)) == all_of(names) + " and "@ + name,
{
    assert(names.push(name).drop_last() =~= names);
    assert(seq![name][0] == name);
}

/// A refusal names the variables that it is about, and the value that it does not take.
pub proof fn law_refusal_names_its_variables(first: Seq<char>, name: Seq<char>, value: Seq<char>)
    ensures
        text::occurs_in(refusal_text(AzureRefusalView::Setting(name)), name),
        text::occurs_in(refusal_text(AzureRefusalView::Authority(name)), name),
        text::occurs_in(refusal_text(AzureRefusalView::Alias(first, name)), first),
        text::occurs_in(refusal_text(AzureRefusalView::Alias(first, name)), name),
        text::begins_with(refusal_text(AzureRefusalView::Emulator(name, value)), name),
        text::ends_in(refusal_text(AzureRefusalView::Emulator(name, value)), text::debug_text(value)),
        text::occurs_in(refusal_text(AzureRefusalView::Selectors(seq![first, name])), first),
        text::occurs_in(refusal_text(AzureRefusalView::Selectors(seq![first, name])), name),
{
    text::lemma_occurs(
        "an az:// bucket does not accept "@,
        name,
        "; celld authenticates with an Azure storage account key, a managed identity, or a workload identity on the public Azure cloud, and it refuses every other Azure setting"@,
    );
    let authority_tail = " only for the public Azure authority "@ + azure::public_authority()
        + "; sovereign and custom authority hosts are not supported"@;
    text::lemma_occurs("an az:// bucket accepts "@, name, authority_tail);
    assert(refusal_text(AzureRefusalView::Authority(name)) =~= "an az:// bucket accepts "@ + name
        + authority_tail);
    let alias_tail = "; they are aliases for the same Azure setting"@;
    text::lemma_occurs(
        "an az:// bucket does not accept both "@,
        first,
        " and "@ + name + alias_tail,
    );
    text::lemma_occurs(
        "an az:// bucket does not accept both "@ + first + " and "@,
        name,
        alias_tail,
    );
    assert(refusal_text(AzureRefusalView::Alias(first, name))
        =~= "an az:// bucket does not accept both "@ + first + (" and "@ + name + alias_tail));
    let emulator = refusal_text(AzureRefusalView::Emulator(name, value));
    assert(emulator.subrange(0, name.len() as int) =~= name);
    assert(emulator.subrange(
        emulator.len() - text::debug_text(value).len(),
        emulator.len() as int,
    ) =~= text::debug_text(value));
    let both: Seq<Seq<char>> = seq![first, name];
    assert(both =~= seq![first].push(name));
    law_names_are_joined(seq![first], name);
    law_names_are_joined(seq![], first);
    let head = "an az:// bucket accepts one managed-identity selector, but "@;
    let tail = " name different identities; set exactly one of AZURE_CLIENT_ID, AZURE_OBJECT_ID, or AZURE_MSI_RESOURCE_ID"@;
    text::lemma_occurs(head, first, " and "@ + name + tail);
    text::lemma_occurs(head + first + " and "@, name, tail);
    assert(refusal_text(AzureRefusalView::Selectors(both)) =~= head + first + (" and "@ + name
        + tail));
    assert(refusal_text(AzureRefusalView::Selectors(both)) =~= head + first + " and "@ + name
        + tail);
}

/// What is said of a bucket that does not open: which setting the store takes not, which prefix
/// is not plain, and an environment's own refusal.
pub proof fn law_open_errors(error: OpenError)
    ensures
        error is DevStore ==> open_error_text(error)
            == "dev:// storage is internal to `celld dev` and is not a fleet bucket"@,
        error is UserAgent ==> open_error_text(error) == "app user agent"@,
        error is GcsEndpoint ==> open_error_text(error)
            == "a gs:// bucket takes no S3 endpoint; unset --endpoint / S3_ENDPOINT"@,
        error is GcsCredentials ==> open_error_text(error)
            == "a gs:// bucket cannot use S3 static credentials; it authenticates with Google Application Default Credentials"@,
        error is AzureEndpoint ==> open_error_text(error)
            == "an az:// bucket takes no S3 endpoint; unset --endpoint / S3_ENDPOINT"@,
        error is AzureCredentials ==> open_error_text(error)
            == "an az:// bucket cannot use S3 static credentials; it authenticates with an Azure storage account key, a managed identity, or a workload identity"@,
        error matches OpenError::Prefix(prefix) ==> text::ends_in(
            open_error_text(error),
            text::debug_text(prefix@),
        ),
        error matches OpenError::Azure(refusal) ==> open_error_text(error) == refusal_text(refusal@),
{
    if let OpenError::Prefix(prefix) = error {
        let out = open_error_text(error);
        let shown = text::debug_text(prefix@);
        assert(out.subrange(out.len() - shown.len(), out.len() as int) =~= shown);
    }
}

} // verus!
