//! What an S3 host name says: the bucket, the region, and the endpoint.

use vstd::prelude::*;

use crate::text;

verus! {

broadcast use vstd::string::group_string_axioms;

/// The region where none is named.
pub const DEFAULT_REGION: &'static str = "us-east-1";

/// What a host says: the bucket and region, the endpoint (empty for AWS itself),
/// and whether the bucket stands in the path instead of the host.
pub struct HostView {
    pub bucket: Seq<char>,
    pub region: Seq<char>,
    pub endpoint: Seq<char>,
    pub force_path_style: bool,
}

/// What stands before a suffix.
pub open spec fn before_suffix(s: Seq<char>, suffix: Seq<char>) -> Option<Seq<char>> {
    if text::ends_in(s, suffix) {
        Some(s.take(s.len() - suffix.len()))
    } else {
        None
    }
}

/// A text up to its last dot, and the label behind it.
pub open spec fn last_label(s: Seq<char>) -> Option<(Seq<char>, Seq<char>)> {
    match s.index_of_last('.') {
        Some(i) => Some((s.take(i), s.skip(i + 1))),
        None => None,
    }
}

/// The bucket and region of `<bucket>.s3.amazonaws.com` or
/// `<bucket>.s3.<region>.amazonaws.com`, where the bucket may hold dots and the
/// region is one label.
pub open spec fn aws_s3(host: Seq<char>) -> Option<(Seq<char>, Seq<char>)> {
    match before_suffix(host, ".amazonaws.com"@) {
        None => None,
        Some(rest) => match before_suffix(rest, ".s3"@) {
            Some(bucket) => if bucket.len() == 0 {
                None
            } else {
                Some((bucket, Seq::empty()))
            },
            None => match last_label(rest) {
                None => None,
                Some((head, region)) => match before_suffix(head, ".s3"@) {
                    None => None,
                    Some(bucket) => if bucket.len() == 0 || region.len() == 0 {
                        None
                    } else {
                        Some((bucket, region))
                    },
                },
            },
        },
    }
}

/// The bucket and region of `<bucket>.<region><suffix>` or `<region><suffix>`.
pub open spec fn two_label(host: Seq<char>, suffix: Seq<char>) -> Option<(Seq<char>, Seq<char>)> {
    match before_suffix(host, suffix) {
        None => None,
        Some(rest) => if rest.len() == 0 {
            None
        } else {
            match last_label(rest) {
                None => Some((Seq::empty(), rest)),
                Some((bucket, region)) => if bucket.len() == 0 || region.len() == 0 {
                    None
                } else {
                    Some((bucket, region))
                },
            }
        },
    }
}

/// The bucket and region of `<bucket>.s3.<region><suffix>` or
/// `s3.<region><suffix>`.
pub open spec fn s3_region(host: Seq<char>, suffix: Seq<char>) -> Option<(Seq<char>, Seq<char>)> {
    match before_suffix(host, suffix) {
        None => None,
        Some(rest) => match last_label(rest) {
            None => None,
            Some((head, region)) => if region.len() == 0 {
                None
            } else if head == "s3"@ {
                Some((Seq::empty(), region))
            } else {
                match before_suffix(head, ".s3"@) {
                    None => None,
                    Some(bucket) => if bucket.len() == 0 {
                        None
                    } else {
                        Some((bucket, region))
                    },
                }
            },
        },
    }
}

/// The bucket of `<bucket>.s3.filebase.com` or `s3.filebase.com`.
pub open spec fn filebase(host: Seq<char>) -> Option<Seq<char>> {
    if host == "s3.filebase.com"@ {
        Some(Seq::empty())
    } else {
        match before_suffix(host, ".s3.filebase.com"@) {
            None => None,
            Some(bucket) => if bucket.len() == 0 {
                None
            } else {
                Some(bucket)
            },
        }
    }
}

/// What a host says. One with a port that is no `.com` is a server of one's own,
/// with the bucket before its first dot; then the providers' own names are tried;
/// any other host is a bucket of AWS.
pub open spec fn host_of(host: Seq<char>) -> HostView {
    let empty = Seq::<char>::empty();
    if host.contains(':') && !text::occurs_in(host, ".com"@) {
        match host.index_of_first('.') {
            Some(i) => HostView {
                bucket: host.take(i),
                region: DEFAULT_REGION@,
                endpoint: "http://"@ + host.skip(i + 1),
                force_path_style: true,
            },
            None => HostView {
                bucket: empty,
                region: empty,
                endpoint: "http://"@ + host,
                force_path_style: true,
            },
        }
    } else if let Some((bucket, region)) = aws_s3(host) {
        HostView { bucket, region, endpoint: empty, force_path_style: false }
    } else if let Some((bucket, region)) = two_label(host, ".digitaloceanspaces.com"@) {
        HostView {
            bucket,
            region,
            endpoint: "https://"@ + region + ".digitaloceanspaces.com"@,
            force_path_style: false,
        }
    } else if let Some((bucket, region)) = s3_region(host, ".backblazeb2.com"@) {
        HostView {
            bucket,
            region,
            endpoint: "https://s3."@ + region + ".backblazeb2.com"@,
            force_path_style: true,
        }
    } else if let Some(bucket) = filebase(host) {
        HostView {
            bucket,
            region: empty,
            endpoint: "s3.filebase.com"@,
            force_path_style: false,
        }
    } else if let Some((bucket, region)) = s3_region(host, ".scw.cloud"@) {
        HostView {
            bucket,
            region,
            endpoint: "s3."@ + region + ".scw.cloud"@,
            force_path_style: false,
        }
    } else {
        HostView { bucket: host, region: empty, endpoint: empty, force_path_style: false }
    }
}

fn strip_suffix(s: &[char], suffix: &str) -> (out: Option<Vec<char>>)
    ensures
        match out {
            Some(head) => before_suffix(s@, suffix@) == Some(head@),
            None => before_suffix(s@, suffix@) is None,
        },
{
    let chars = text::chars_of(suffix);
    if text::ends_with(s, &chars) {
        let head = text::cut(s, 0, s.len() - chars.len());
        assert(head@ =~= s@.take(s@.len() - suffix@.len()));
        Some(head)
    } else {
        None
    }
}

fn split_label(s: &[char]) -> (out: Option<(Vec<char>, Vec<char>)>)
    ensures
        match out {
            Some((head, label)) => last_label(s@) == Some((head@, label@)),
            None => last_label(s@) is None,
        },
{
    proof {
        s@.index_of_last_ensures('.');
    }
    match text::rfind_char(s, '.') {
        None => None,
        Some(i) => {
            assert(s@.contains(s@[i as int]));
            let length: usize = s.len();
            let head = text::cut(s, 0, i);
            let label = text::cut(s, i + 1, length);
            assert(head@ =~= s@.take(i as int));
            assert(label@ =~= s@.skip(i + 1));
            Some((head, label))
        },
    }
}

fn match_aws_s3(host: &[char]) -> (out: Option<(Vec<char>, Vec<char>)>)
    ensures
        match out {
            Some((bucket, region)) => aws_s3(host@) == Some((bucket@, region@)),
            None => aws_s3(host@) is None,
        },
{
    let rest = match strip_suffix(host, ".amazonaws.com") {
        None => {
            return None;
        },
        Some(rest) => rest,
    };
    match strip_suffix(&rest, ".s3") {
        Some(bucket) => {
            if bucket.len() == 0 {
                None
            } else {
                let region: Vec<char> = Vec::new();
                assert(region@ =~= Seq::<char>::empty());
                Some((bucket, region))
            }
        },
        None => match split_label(&rest) {
            None => None,
            Some((head, region)) => match strip_suffix(&head, ".s3") {
                None => None,
                Some(bucket) => if bucket.len() == 0 || region.len() == 0 {
                    None
                } else {
                    Some((bucket, region))
                },
            },
        },
    }
}

fn match_two_label_suffix(host: &[char], suffix: &str) -> (out: Option<(Vec<char>, Vec<char>)>)
    ensures
        match out {
            Some((bucket, region)) => two_label(host@, suffix@) == Some((bucket@, region@)),
            None => two_label(host@, suffix@) is None,
        },
{
    match strip_suffix(host, suffix) {
        None => None,
        Some(rest) => {
            if rest.len() == 0 {
                return None;
            }
            match split_label(&rest) {
                None => {
                    let bucket: Vec<char> = Vec::new();
                    assert(bucket@ =~= Seq::<char>::empty());
                    Some((bucket, rest))
                },
                Some((bucket, region)) => if bucket.len() == 0 || region.len() == 0 {
                    None
                } else {
                    Some((bucket, region))
                },
            }
        },
    }
}

fn match_s3_region_suffix(host: &[char], suffix: &str) -> (out: Option<(Vec<char>, Vec<char>)>)
    ensures
        match out {
            Some((bucket, region)) => s3_region(host@, suffix@) == Some((bucket@, region@)),
            None => s3_region(host@, suffix@) is None,
        },
{
    let rest = match strip_suffix(host, suffix) {
        None => {
            return None;
        },
        Some(rest) => rest,
    };
    match split_label(&rest) {
        None => None,
        Some((head, region)) => {
            if region.len() == 0 {
                return None;
            }
            let s3 = text::chars_of("s3");
            if text::same(&head, &s3) {
                let bucket: Vec<char> = Vec::new();
                assert(bucket@ =~= Seq::<char>::empty());
                return Some((bucket, region));
            }
            match strip_suffix(&head, ".s3") {
                None => None,
                Some(bucket) => if bucket.len() == 0 {
                    None
                } else {
                    Some((bucket, region))
                },
            }
        },
    }
}

fn match_filebase(host: &[char]) -> (out: Option<Vec<char>>)
    ensures
        match out {
            Some(bucket) => filebase(host@) == Some(bucket@),
            None => filebase(host@) is None,
        },
{
    let whole = text::chars_of("s3.filebase.com");
    if text::same(host, &whole) {
        let bucket: Vec<char> = Vec::new();
        assert(bucket@ =~= Seq::<char>::empty());
        return Some(bucket);
    }
    match strip_suffix(host, ".s3.filebase.com") {
        None => None,
        Some(bucket) => if bucket.len() == 0 {
            None
        } else {
            Some(bucket)
        },
    }
}

fn empty_text() -> (s: String)
    ensures
        s@ == Seq::<char>::empty(),
{
    let none: Vec<char> = Vec::new();
    text::string_of(&none)
}

fn around(before: &str, middle: &[char], after: &str) -> (s: String)
    ensures
        s@ == before@ + middle@ + after@,
{
    let middle = text::string_of(middle);
    text::concat3(before, middle.as_str(), after)
}

/// What an S3 host says: bucket, region, endpoint, and whether the bucket stands
/// in the path.
pub fn parse_host(host: &str) -> (parts: (String, String, String, bool))
    ensures
        parts.0@ == host_of(host@).bucket,
        parts.1@ == host_of(host@).region,
        parts.2@ == host_of(host@).endpoint,
        parts.3 == host_of(host@).force_path_style,
{
    let chars = text::chars_of(host);
    let com = text::chars_of(".com");
    proof {
        host@.index_of_first_ensures('.');
    }
    if text::find_char(&chars, ':').is_some() && !text::contains(&chars, &com) {
        return match text::find_char(&chars, '.') {
            Some(i) => {
                assert(host@.contains(host@[i as int]));
                let length: usize = chars.len();
                let bucket = text::cut(&chars, 0, i);
                let rest = text::cut(&chars, i + 1, length);
                assert(bucket@ =~= host@.take(i as int));
                assert(rest@ =~= host@.skip(i + 1));
                let rest = text::string_of(&rest);
                (
                    text::string_of(&bucket),
                    DEFAULT_REGION.to_owned(),
                    text::concat("http://", rest.as_str()),
                    true,
                )
            },
            None => (
                empty_text(),
                empty_text(),
                text::concat("http://", host),
                true,
            ),
        };
    }
    if let Some((bucket, region)) = match_aws_s3(&chars) {
        return (
            text::string_of(&bucket),
            text::string_of(&region),
            empty_text(),
            false,
        );
    }
    if let Some((bucket, region)) = match_two_label_suffix(&chars, ".digitaloceanspaces.com") {
        return (
            text::string_of(&bucket),
            text::string_of(&region),
            around("https://", &region, ".digitaloceanspaces.com"),
            false,
        );
    }
    if let Some((bucket, region)) = match_s3_region_suffix(&chars, ".backblazeb2.com") {
        return (
            text::string_of(&bucket),
            text::string_of(&region),
            around("https://s3.", &region, ".backblazeb2.com"),
            true,
        );
    }
    if let Some(bucket) = match_filebase(&chars) {
        return (
            text::string_of(&bucket),
            empty_text(),
            "s3.filebase.com".to_owned(),
            false,
        );
    }
    if let Some((bucket, region)) = match_s3_region_suffix(&chars, ".scw.cloud") {
        return (
            text::string_of(&bucket),
            text::string_of(&region),
            around("s3.", &region, ".scw.cloud"),
            false,
        );
    }
    (
        host.to_owned(),
        empty_text(),
        empty_text(),
        false,
    )
}

proof fn lemma_before_suffix(s: Seq<char>, suffix: Seq<char>)
    ensures
        before_suffix(s + suffix, suffix) == Some(s),
{
    let all = s + suffix;
    assert(all.subrange(all.len() - suffix.len(), all.len() as int) =~= suffix);
    assert(all.take(all.len() - suffix.len()) =~= s);
}

proof fn lemma_last_label(head: Seq<char>, label: Seq<char>)
    requires
        !label.contains('.'),
    ensures
        last_label(head + seq!['.'] + label) == Some((head, label)),
{
    let s = head + seq!['.'] + label;
    let n = head.len() as int;
    assert(s[n] == '.');
    assert forall|k: int| n < k < s.len() implies s[k] != '.' by {
        assert(s[k] == label[k - n - 1]);
    }
    s.index_of_last_ensures('.');
    assert(s.contains('.'));
    assert(s.take(n) =~= head);
    assert(s.skip(n + 1) =~= label);
}

/// A text that ends in one suffix does not end in another that differs from it at some place
/// from the end.
proof fn lemma_other_suffix(s: Seq<char>, suffix: Seq<char>, other: Seq<char>, back: int)
    requires
        0 < back <= suffix.len(),
        back <= other.len(),
        suffix[suffix.len() - back] != other[other.len() - back],
    ensures
        before_suffix(s + suffix, other) is None,
{
    let all = s + suffix;
    if text::ends_in(all, other) {
        let tail = all.subrange(all.len() - other.len(), all.len() as int);
        assert(tail[other.len() - back] == all[all.len() - back]);
    }
}

/// A host of Amazon's names its bucket, and its region where it has one; the endpoint is
/// Amazon's own.
pub proof fn law_amazon_host(bucket: Seq<char>, region: Seq<char>)
    requires
        bucket.len() > 0,
        region.len() > 0 && !region.contains('.') && region != "s3"@,
        !(bucket + ".s3."@ + region + ".amazonaws.com"@).contains(':'),
    ensures
        ({
            let plain = host_of(bucket + ".s3.amazonaws.com"@);
            let regional = host_of(bucket + ".s3."@ + region + ".amazonaws.com"@);
            &&& plain.bucket == bucket && plain.region.len() == 0 && plain.endpoint.len() == 0
                && !plain.force_path_style
            &&& regional.bucket == bucket && regional.region == region && regional.endpoint.len()
                == 0 && !regional.force_path_style
        }),
{
    reveal_strlit(".s3.amazonaws.com");
    reveal_strlit(".amazonaws.com");
    reveal_strlit(".s3");
    reveal_strlit(".s3.");
    reveal_strlit("s3");
    let plain = bucket + ".s3.amazonaws.com"@;
    assert(plain =~= (bucket + ".s3"@) + ".amazonaws.com"@);
    let regional = bucket + ".s3."@ + region + ".amazonaws.com"@;
    assert forall|c: char| plain.contains(c) implies c != ':' by {
        let k = choose|k: int| 0 <= k < plain.len() && plain[k] == c;
        if k < bucket.len() {
            assert(regional[k] == c);
        }
    }
    lemma_before_suffix(bucket + ".s3"@, ".amazonaws.com"@);
    lemma_before_suffix(bucket, ".s3"@);
    assert(plain.len() > 0);
    let rest = bucket + ".s3."@ + region;
    assert(rest =~= (bucket + ".s3"@) + seq!['.'] + region);
    lemma_before_suffix(rest, ".amazonaws.com"@);
    lemma_last_label(bucket + ".s3"@, region);
    assert(!text::ends_in(rest, ".s3"@)) by {
        if text::ends_in(rest, ".s3"@) {
            let tail = rest.subrange(rest.len() - 3, rest.len() as int);
            assert(tail[0] == '.' && tail[1] == 's' && tail[2] == '3');
            let n = rest.len();
            assert(rest[n - 3] == '.' && rest[n - 2] == 's' && rest[n - 1] == '3');
            if region.len() >= 3 {
                assert(region[region.len() - 3] == '.');
            } else if region.len() == 2 {
                assert(region[0] == 's' && region[1] == '3');
                assert(region =~= "s3"@);
            } else {
                assert(rest[n - 2] == '.');
            }
        }
    }
}

/// A host of a provider's names its bucket and its region, and implies the provider's
/// endpoint for that region; Backblaze wants the bucket in the path.
pub proof fn law_provider_host(bucket: Seq<char>, region: Seq<char>)
    requires
        bucket.len() > 0 && !bucket.contains(':'),
        region.len() > 0 && !region.contains('.') && !region.contains(':'),
    ensures
        ({
            let digitalocean = host_of(bucket + "."@ + region + ".digitaloceanspaces.com"@);
            let backblaze = host_of(bucket + ".s3."@ + region + ".backblazeb2.com"@);
            let scaleway = host_of(bucket + ".s3."@ + region + ".scw.cloud"@);
            let filebase = host_of(bucket + ".s3.filebase.com"@);
            &&& digitalocean.bucket == bucket && digitalocean.region == region
                && digitalocean.endpoint == "https://"@ + region + ".digitaloceanspaces.com"@
                && !digitalocean.force_path_style
            &&& backblaze.bucket == bucket && backblaze.region == region && backblaze.endpoint
                == "https://s3."@ + region + ".backblazeb2.com"@ && backblaze.force_path_style
            &&& scaleway.bucket == bucket && scaleway.region == region && scaleway.endpoint == "s3."@
                + region + ".scw.cloud"@ && !scaleway.force_path_style
            &&& filebase.bucket == bucket && filebase.region.len() == 0 && filebase.endpoint
                == "s3.filebase.com"@ && !filebase.force_path_style
        }),
{
    reveal_strlit(".amazonaws.com");
    reveal_strlit(".digitaloceanspaces.com");
    reveal_strlit(".backblazeb2.com");
    reveal_strlit(".s3.filebase.com");
    reveal_strlit("s3.filebase.com");
    reveal_strlit(".scw.cloud");
    reveal_strlit(".s3");
    reveal_strlit(".s3.");
    reveal_strlit("s3");
    reveal_strlit(".");
    let dig = bucket + "."@ + region;
    let mid = bucket + ".s3."@ + region;
    assert(dig =~= bucket + seq!['.'] + region);
    assert(mid =~= (bucket + ".s3"@) + seq!['.'] + region);
    lemma_no_colon(dig, ".digitaloceanspaces.com"@, bucket, region);
    lemma_no_colon(mid, ".backblazeb2.com"@, bucket, region);
    lemma_no_colon(mid, ".scw.cloud"@, bucket, region);
    lemma_no_colon(bucket, ".s3.filebase.com"@, bucket, region);
    lemma_last_label(bucket, region);
    lemma_last_label(bucket + ".s3"@, region);
    lemma_before_suffix(bucket, ".s3"@);
    assert(bucket + ".s3"@ != "s3"@) by {
        assert((bucket + ".s3"@).len() > 2);
    }
    // DigitalOcean
    lemma_other_suffix(dig, ".digitaloceanspaces.com"@, ".amazonaws.com"@, 6);
    lemma_before_suffix(dig, ".digitaloceanspaces.com"@);
    // Backblaze
    lemma_other_suffix(mid, ".backblazeb2.com"@, ".amazonaws.com"@, 5);
    lemma_other_suffix(mid, ".backblazeb2.com"@, ".digitaloceanspaces.com"@, 5);
    lemma_before_suffix(mid, ".backblazeb2.com"@);
    // Filebase
    lemma_other_suffix(bucket, ".s3.filebase.com"@, ".amazonaws.com"@, 5);
    lemma_other_suffix(bucket, ".s3.filebase.com"@, ".digitaloceanspaces.com"@, 5);
    lemma_other_suffix(bucket, ".s3.filebase.com"@, ".backblazeb2.com"@, 5);
    lemma_before_suffix(bucket, ".s3.filebase.com"@);
    assert((bucket + ".s3.filebase.com"@).len() > "s3.filebase.com"@.len());
    // Scaleway
    lemma_other_suffix(mid, ".scw.cloud"@, ".amazonaws.com"@, 1);
    lemma_other_suffix(mid, ".scw.cloud"@, ".digitaloceanspaces.com"@, 1);
    lemma_other_suffix(mid, ".scw.cloud"@, ".backblazeb2.com"@, 1);
    lemma_other_suffix(mid, ".scw.cloud"@, ".s3.filebase.com"@, 1);
    let scaleway = mid + ".scw.cloud"@;
    assert(scaleway != "s3.filebase.com"@) by {
        assert(scaleway.last() == 'd');
        assert("s3.filebase.com"@.last() == 'm');
    }
    lemma_before_suffix(mid, ".scw.cloud"@);
}

proof fn lemma_no_colon(
    front: Seq<char>,
    suffix: Seq<char>,
    bucket: Seq<char>,
    region: Seq<char>,
)
    requires
        !bucket.contains(':'),
        !region.contains(':'),
        front == bucket || front == bucket + "."@ + region || front == bucket + ".s3."@ + region,
        forall|k: int| 0 <= k < suffix.len() ==> suffix[k] != ':',
    ensures
        !(front + suffix).contains(':'),
{
    reveal_strlit(".");
    reveal_strlit(".s3.");
    let all = front + suffix;
    if all.contains(':') {
        let k = choose|k: int| 0 <= k < all.len() && all[k] == ':';
        if k < front.len() {
            assert(front[k] == ':');
            if k < bucket.len() {
                assert(bucket[k] == ':');
            } else if front == bucket + "."@ + region && k > bucket.len() {
                assert(region[k - bucket.len() - 1] == ':');
            } else if front == bucket + ".s3."@ + region && k >= bucket.len() + 4 {
                assert(region[k - bucket.len() - 4] == ':');
            }
        } else {
            assert(suffix[k - front.len()] == ':');
        }
    }
}

/// A host with a port, and without `.com`, is a server of one's own: the first label is the
/// bucket, the rest its endpoint over plain HTTP with the bucket in the path; without a label
/// there is no bucket. A name with neither a port nor a dot is a bucket.
pub proof fn law_own_host(bucket: Seq<char>, rest: Seq<char>, name: Seq<char>)
    requires
        !bucket.contains('.'),
        rest.contains(':'),
        !text::occurs_in(bucket + "."@ + rest, ".com"@),
        name.len() > 0 && !name.contains('.') && !name.contains(':'),
    ensures
        ({
            let own = host_of(bucket + "."@ + rest);
            let plain = host_of(name);
            &&& own.bucket == bucket && own.region == "us-east-1"@ && own.endpoint == "http://"@
                + rest && own.force_path_style
            &&& plain.bucket == name && plain.region.len() == 0 && plain.endpoint.len() == 0
                && !plain.force_path_style
        }),
{
    reveal_strlit(".");
    reveal_strlit(".com");
    let host = bucket + "."@ + rest;
    let n = bucket.len() as int;
    let k = choose|k: int| 0 <= k < rest.len() && rest[k] == ':';
    assert(host[n + 1 + k] == ':');
    assert(host[n] == '.');
    host.index_of_first_ensures('.');
    assert(host.contains('.'));
    assert forall|j: int| 0 <= j < n implies host[j] != '.' by {
        assert(host[j] == bucket[j]);
    }
    assert(host.take(n) =~= bucket);
    assert(host.skip(n + 1) =~= rest);
    reveal_strlit(".amazonaws.com");
    reveal_strlit(".digitaloceanspaces.com");
    reveal_strlit(".backblazeb2.com");
    reveal_strlit(".s3.filebase.com");
    reveal_strlit("s3.filebase.com");
    reveal_strlit(".scw.cloud");
    lemma_no_dot(name, ".amazonaws.com"@);
    lemma_no_dot(name, ".digitaloceanspaces.com"@);
    lemma_no_dot(name, ".backblazeb2.com"@);
    lemma_no_dot(name, ".s3.filebase.com"@);
    lemma_no_dot(name, ".scw.cloud"@);
    if name == "s3.filebase.com"@ {
        assert(name[2] == '.');
    }
}

proof fn lemma_no_dot(name: Seq<char>, suffix: Seq<char>)
    requires
        !name.contains('.'),
        suffix.len() > 0 && suffix[0] == '.',
    ensures
        before_suffix(name, suffix) is None,
{
    if text::ends_in(name, suffix) {
        let n = name.len() - suffix.len();
        assert(name.subrange(n, name.len() as int)[0] == name[n]);
    }
}

/// A provider's host without a bucket names the region, or nothing, and the same endpoint.
pub proof fn law_provider_host_without_a_bucket(region: Seq<char>)
    requires
        region.len() > 0 && !region.contains('.') && !region.contains(':'),
    ensures
        ({
            let digitalocean = host_of(region + ".digitaloceanspaces.com"@);
            let backblaze = host_of("s3."@ + region + ".backblazeb2.com"@);
            let scaleway = host_of("s3."@ + region + ".scw.cloud"@);
            let filebase = host_of("s3.filebase.com"@);
            &&& digitalocean.bucket.len() == 0 && digitalocean.region == region
                && digitalocean.endpoint == "https://"@ + region + ".digitaloceanspaces.com"@
            &&& backblaze.bucket.len() == 0 && backblaze.region == region && backblaze.endpoint
                == "https://s3."@ + region + ".backblazeb2.com"@ && backblaze.force_path_style
            &&& scaleway.bucket.len() == 0 && scaleway.region == region && scaleway.endpoint
                == "s3."@ + region + ".scw.cloud"@
            &&& filebase.bucket.len() == 0 && filebase.endpoint == "s3.filebase.com"@
        }),
{
    reveal_strlit(".amazonaws.com");
    reveal_strlit(".digitaloceanspaces.com");
    reveal_strlit(".backblazeb2.com");
    reveal_strlit(".s3.filebase.com");
    reveal_strlit("s3.filebase.com");
    reveal_strlit("filebase.com");
    reveal_strlit(".scw.cloud");
    reveal_strlit("s3.");
    reveal_strlit("s3");
    let mid = "s3."@ + region;
    assert(mid =~= "s3"@ + seq!['.'] + region);
    assert(!mid.contains(':')) by {
        if mid.contains(':') {
            let k = choose|k: int| 0 <= k < mid.len() && mid[k] == ':';
            assert(k >= 3);
            assert(region[k - 3] == ':');
        }
    }
    lemma_no_colon(region, ".digitaloceanspaces.com"@, region, region);
    lemma_no_colon(mid, ".backblazeb2.com"@, mid, region);
    lemma_no_colon(mid, ".scw.cloud"@, mid, region);
    let empty = Seq::<char>::empty();
    lemma_no_colon(empty, "s3.filebase.com"@, empty, empty);
    assert(empty + "s3.filebase.com"@ =~= "s3.filebase.com"@);
    region.index_of_last_ensures('.');
    lemma_last_label("s3"@, region);
    lemma_other_suffix(region, ".digitaloceanspaces.com"@, ".amazonaws.com"@, 6);
    lemma_before_suffix(region, ".digitaloceanspaces.com"@);
    lemma_other_suffix(mid, ".backblazeb2.com"@, ".amazonaws.com"@, 5);
    lemma_other_suffix(mid, ".backblazeb2.com"@, ".digitaloceanspaces.com"@, 5);
    lemma_before_suffix(mid, ".backblazeb2.com"@);
    lemma_other_suffix(empty, "s3.filebase.com"@, ".amazonaws.com"@, 5);
    lemma_other_suffix(empty, "s3.filebase.com"@, ".digitaloceanspaces.com"@, 5);
    lemma_other_suffix(empty, "s3.filebase.com"@, ".backblazeb2.com"@, 5);
    lemma_other_suffix(mid, ".scw.cloud"@, ".amazonaws.com"@, 1);
    lemma_other_suffix(mid, ".scw.cloud"@, ".digitaloceanspaces.com"@, 1);
    lemma_other_suffix(mid, ".scw.cloud"@, ".backblazeb2.com"@, 1);
    lemma_other_suffix(mid, ".scw.cloud"@, ".s3.filebase.com"@, 1);
    let scaleway = mid + ".scw.cloud"@;
    assert(scaleway != "s3.filebase.com"@) by {
        assert(scaleway.last() == 'd');
        assert("s3.filebase.com"@.last() == 'm');
    }
    lemma_before_suffix(mid, ".scw.cloud"@);
}

/// A server of one's own whose name has no dot names no bucket: it is the endpoint as it
/// stands, and its paths hold the bucket.
pub proof fn law_own_host_without_a_dot(name: Seq<char>, port: Seq<char>)
    requires
        !name.contains('.') && !port.contains('.'),
    ensures
        ({
            let own = host_of(name + ":"@ + port);
            &&& own.bucket.len() == 0 && own.region.len() == 0
            &&& own.endpoint == "http://"@ + name + ":"@ + port && own.force_path_style
        }),
{
    reveal_strlit(":");
    reveal_strlit(".com");
    let host = name + ":"@ + port;
    assert(host[name.len() as int] == ':');
    assert forall|i: int| 0 <= i < host.len() implies host[i] != '.' by {
        if i < name.len() {
            assert(name.contains(name[i]));
        } else if i > name.len() {
            assert(port.contains(port[i - name.len() - 1]));
        }
    }
    if text::occurs_in(host, ".com"@) {
        let i = choose|i: int| text::stands_at(host, ".com"@, i);
        assert(host.subrange(i, i + 4)[0] == '.');
    }
    host.index_of_first_ensures('.');
    assert(host.index_of_first('.') is None);
    assert("http://"@ + host =~= "http://"@ + name + ":"@ + port);
}

/// An AWS host without a bucket, or with an empty region, names neither.
pub proof fn law_amazon_host_lacks_a_part(bucket: Seq<char>, region: Seq<char>)
    requires
        !region.contains('.') && region != "s3"@,
    ensures
        aws_s3(bucket + ".s3."@ + region + ".amazonaws.com"@) is Some <==> bucket.len() > 0
            && region.len() > 0,
        aws_s3(bucket + ".s3.amazonaws.com"@) is Some <==> bucket.len() > 0,
{
    reveal_strlit(".s3.amazonaws.com");
    reveal_strlit(".amazonaws.com");
    reveal_strlit(".s3");
    reveal_strlit(".s3.");
    reveal_strlit("s3");
    assert(bucket + ".s3.amazonaws.com"@ =~= (bucket + ".s3"@) + ".amazonaws.com"@);
    lemma_before_suffix(bucket + ".s3"@, ".amazonaws.com"@);
    lemma_before_suffix(bucket, ".s3"@);
    let rest = bucket + ".s3."@ + region;
    assert(rest =~= (bucket + ".s3"@) + seq!['.'] + region);
    lemma_before_suffix(rest, ".amazonaws.com"@);
    lemma_last_label(bucket + ".s3"@, region);
    assert(!text::ends_in(rest, ".s3"@)) by {
        if text::ends_in(rest, ".s3"@) {
            let tail = rest.subrange(rest.len() - 3, rest.len() as int);
            assert(tail[0] == '.' && tail[1] == 's' && tail[2] == '3');
            let n = rest.len();
            assert(rest[n - 3] == '.' && rest[n - 2] == 's' && rest[n - 1] == '3');
            if region.len() >= 3 {
                assert(region[region.len() - 3] == '.');
            } else if region.len() == 2 {
                assert(region[0] == 's' && region[1] == '3');
                assert(region =~= "s3"@);
            } else if region.len() == 1 {
                assert(rest[n - 2] == '.');
            } else {
                assert(rest[n - 1] == '.');
            }
        }
    }
}

} // verus!
