//! Issue keys and the tracker client's pure core.

use vstd::prelude::*;

use crate::json::{spec_lookup, JsonVal};
use crate::timestamp::Timestamp;

use crate::text::{
    is_alpha, is_digit, spec_contains, spec_is_alpha, spec_is_digit, spec_split, spec_starts_with, spec_trim_end, spec_trim_start, spec_upper, split_char,
    starts_with, to_upper, trim,
};

verus! {

/// `PREFIX-NUMBER`: one or more letters, a dash, one or more digits.
/// Letters and digits are never `'-'`, so the dash position is unique.
pub open spec fn spec_valid_key(s: Seq<char>) -> bool {
    exists|d: int|
        {
            &&& 1 <= d < s.len() - 1
            &&& #[trigger] s[d] == '-'
            &&& forall|j: int| 0 <= j < d ==> spec_is_alpha(#[trigger] s[j])
            &&& forall|j: int| d < j < s.len() ==> spec_is_digit(#[trigger] s[j])
        }
}

/// Whether `s` has the shape `PREFIX-NUMBER` (any letter case).
pub fn is_valid_issue_key(s: &str) -> (r: bool)
    ensures
        r == spec_valid_key(s@),
{
    let len = s.unicode_len();
    // Find the first dash.
    let mut d: usize = 0;
    while d < len && s.get_char(d) != '-'
        invariant
            len == s@.len(),
            d <= len,
            forall|j: int| 0 <= j < d ==> s@[j] != '-',
        decreases len - d,
    {
        d = d + 1;
    }
    if d == len || d == 0 || d + 1 == len {
        // No dash, empty prefix, or empty suffix.
        proof {
            assert forall|w: int|
                !({
                    &&& 1 <= w < s@.len() - 1
                    &&& s@[w] == '-'
                    &&& forall|j: int| 0 <= j < w ==> spec_is_alpha(#[trigger] s@[j])
                    &&& forall|j: int| w < j < s@.len() ==> spec_is_digit(#[trigger] s@[j])
                }) by {
                if 1 <= w < s@.len() - 1 && s@[w] == '-' {
                    assert(w >= d);
                    if d < len {
                        assert(s@[d as int] == '-');
                        assert(d as int != w ==> d < w);
                        assert(!spec_is_alpha('-') && !spec_is_digit('-'));
                    }
                }
            }
        }
        return false;
    }
    // Check the prefix letters.
    let mut i: usize = 0;
    while i < d
        invariant
            len == s@.len(),
            d < len,
            i <= d,
            forall|j: int| 0 <= j < i ==> spec_is_alpha(#[trigger] s@[j]),
            forall|j: int| 0 <= j < d ==> s@[j] != '-',
            s@[d as int] == '-',
            1 <= d && d + 1 < len,
        decreases d - i,
    {
        if !is_alpha(s.get_char(i)) {
            proof {
                lemma_no_other_dash(s@, d as int, i as int);
            }
            return false;
        }
        i = i + 1;
    }
    // Check the suffix digits.
    let mut k: usize = d + 1;
    while k < len
        invariant
            len == s@.len(),
            d + 1 <= k <= len,
            forall|j: int| d < j < k ==> spec_is_digit(#[trigger] s@[j]),
            forall|j: int| 0 <= j < d ==> spec_is_alpha(#[trigger] s@[j]) && s@[j] != '-',
            s@[d as int] == '-',
            1 <= d && d + 1 < len,
        decreases len - k,
    {
        if !is_digit(s.get_char(k)) {
            proof {
                lemma_no_other_dash(s@, d as int, k as int);
            }
            return false;
        }
        k = k + 1;
    }
    proof {
        let w = d as int;
        assert({
            &&& 1 <= w < s@.len() - 1
            &&& s@[w] == '-'
            &&& forall|j: int| 0 <= j < w ==> spec_is_alpha(#[trigger] s@[j])
            &&& forall|j: int| w < j < s@.len() ==> spec_is_digit(#[trigger] s@[j])
        });
    }
    true
}

/// If position `bad` violates its character class relative to dash position
/// `d`, no dash position can witness validity.
proof fn lemma_no_other_dash(s: Seq<char>, d: int, bad: int)
    requires
        0 <= d < s.len(),
        s[d] == '-',
        forall|j: int| 0 <= j < d ==> s[j] != '-',
        0 <= bad < s.len(),
        bad != d,
        bad < d ==> !spec_is_alpha(s[bad]),
        bad > d ==> !spec_is_digit(s[bad]),
    ensures
        !spec_valid_key(s),
{
    assert forall|w: int|
        !({
            &&& 1 <= w < s.len() - 1
            &&& s[w] == '-'
            &&& forall|j: int| 0 <= j < w ==> spec_is_alpha(#[trigger] s[j])
            &&& forall|j: int| w < j < s.len() ==> spec_is_digit(#[trigger] s[j])
        }) by {
        if 1 <= w < s.len() - 1 && s[w] == '-' {
            // w cannot be before the first dash.
            assert(w >= d);
            if w == d {
                if bad < d {
                    assert(!spec_is_alpha(s[bad]));
                } else {
                    assert(!spec_is_digit(s[bad]));
                }
            } else {
                // w > d: then s[d] == '-' would have to be a letter.
                assert(!spec_is_alpha('-'));
            }
        }
    }
}

/// The portion of a path segment before any query string.
pub open spec fn spec_before_query(part: Seq<char>) -> Seq<char> {
    spec_split(part, '?')[0]
}

/// A `browse`/`issues` segment at `i` followed by a valid key.
pub open spec fn spec_url_key_at(parts: Seq<Seq<char>>, i: int) -> bool {
    &&& 0 <= i
    &&& i + 1 < parts.len()
    &&& (parts[i] == "browse"@ || parts[i] == "issues"@)
    &&& spec_valid_key(spec_before_query(parts[i + 1]))
}

/// Scans the path segments left to right for a key after `browse`/`issues`.
pub open spec fn spec_scan_parts(parts: Seq<Seq<char>>, i: int) -> Option<Seq<char>>
    decreases parts.len() - i,
{
    if i < 0 || i >= parts.len() {
        None
    } else if spec_url_key_at(parts, i) {
        Some(spec_upper(spec_before_query(parts[i + 1])))
    } else {
        spec_scan_parts(parts, i + 1)
    }
}

/// What `parse_issue_key` returns: for input already shaped `PREFIX-NUMBER`
/// the uppercased key; for a tracker URL, the uppercased key extracted after
/// a `browse` or `issues` path segment; otherwise nothing.
pub open spec fn spec_parse_issue_key(raw: Seq<char>) -> Option<Seq<char>> {
    let t = spec_trim_end(spec_trim_start(raw));
    if spec_starts_with(t, "http"@) {
        spec_scan_parts(spec_split(t, '/'), 0)
    } else if spec_valid_key(t) {
        Some(spec_upper(t))
    } else {
        None
    }
}

/// Parses an issue key from either a bare `PROJ-123` form or a full tracker
/// URL containing `/browse/KEY` or `/issues/KEY`.
pub fn parse_issue_key(input: &str) -> (r: Option<String>)
    ensures
        match (r, spec_parse_issue_key(input@)) {
            (Some(k), Some(g)) => k@ == g,
            (None, None) => true,
            _ => false,
        },
{
    let t = trim(input);
    if starts_with(t, "http") {
        let parts = split_char(t, '/');
        let ghost gparts = parts@.map_values(|p: String| p@);
        let mut i: usize = 0;
        while i < parts.len()
            invariant
                gparts == parts@.map_values(|p: String| p@),
                t@ == spec_trim_end(spec_trim_start(input@)),
                spec_starts_with(t@, "http"@),
                gparts == spec_split(t@, '/'),
                i <= parts.len(),
                spec_scan_parts(gparts, 0) == spec_scan_parts(gparts, i as int),
            decreases parts.len() - i,
        {
            let seg = &parts[i];
            if (str_eq_lit_browse(seg) || str_eq_lit_issues(seg)) && i + 1 < parts.len() {
                let halves = split_char(parts[i + 1].as_str(), '?');
                proof {
                    crate::text::lemma_split_len(parts@[i + 1]@, '?');
                }
                let key = &halves[0];
                proof {
                    assert(halves@.map_values(|p: String| p@)[0] == spec_before_query(
                        gparts[i + 1],
                    ));
                    assert(key@ == spec_before_query(gparts[i + 1]));
                }
                if is_valid_issue_key(key.as_str()) {
                    proof {
                        assert(spec_url_key_at(gparts, i as int));
                        assert(spec_scan_parts(gparts, i as int) == Some(
                            spec_upper(spec_before_query(gparts[i + 1])),
                        ));
                        let t0 = spec_trim_end(spec_trim_start(input@));
                        assert(t@ == t0);
                        assert(spec_starts_with(t0, "http"@));
                        assert(spec_split(t0, '/') == gparts);
                        assert(spec_parse_issue_key(input@) == spec_scan_parts(gparts, 0));
                    }
                    return Some(to_upper(key.as_str()));
                }
            }
            proof {
                assert(!spec_url_key_at(gparts, i as int));
            }
            i = i + 1;
        }
        None
    } else if is_valid_issue_key(t) {
        Some(to_upper(t))
    } else {
        None
    }
}

fn str_eq_lit_browse(s: &String) -> (r: bool)
    ensures
        r == (s@ == "browse"@),
{
    crate::text::str_eq(s.as_str(), "browse")
}

fn str_eq_lit_issues(s: &String) -> (r: bool)
    ensures
        r == (s@ == "issues"@),
{
    crate::text::str_eq(s.as_str(), "issues")
}


/// Uppercasing preserves the key shape and is idempotent.
pub proof fn lemma_upper_preserves_key(s: Seq<char>)
    requires
        spec_valid_key(s),
    ensures
        spec_valid_key(spec_upper(s)),
        spec_upper(spec_upper(s)) == spec_upper(s),
{
    let u = spec_upper(s);
    let d = choose|d: int|
        {
            &&& 1 <= d < s.len() - 1
            &&& #[trigger] s[d] == '-'
            &&& forall|j: int| 0 <= j < d ==> spec_is_alpha(#[trigger] s[j])
            &&& forall|j: int| d < j < s.len() ==> spec_is_digit(#[trigger] s[j])
        };
    assert(u.len() == s.len());
    assert(u[d] == crate::text::spec_upper_char(s[d]));
    assert(u[d] == '-');
    assert forall|j: int| 0 <= j < d implies spec_is_alpha(#[trigger] u[j]) by {
        assert(u[j] == crate::text::spec_upper_char(s[j]));
        assert(spec_is_alpha(s[j]));
    }
    assert forall|j: int| d < j < u.len() implies spec_is_digit(#[trigger] u[j]) by {
        assert(u[j] == crate::text::spec_upper_char(s[j]));
        assert(spec_is_digit(s[j]));
    }
    assert(spec_valid_key(u));
    assert forall|i: int| 0 <= i < u.len() implies #[trigger] spec_upper(u)[i] == u[i] by {
        assert(spec_upper(u)[i] == crate::text::spec_upper_char(u[i]));
        assert(u[i] == crate::text::spec_upper_char(s[i]));
    }
    assert(spec_upper(u) =~= u);
}

proof fn lemma_scan_parts_normalized(parts: Seq<Seq<char>>, i: int)
    ensures
        spec_scan_parts(parts, i) matches Some(k) ==> spec_valid_key(k) && spec_upper(k) == k,
    decreases parts.len() - i,
{
    if 0 <= i < parts.len() {
        if spec_url_key_at(parts, i) {
            lemma_upper_preserves_key(spec_before_query(parts[i + 1]));
        } else {
            lemma_scan_parts_normalized(parts, i + 1);
        }
    }
}

/// An accepted issue key is always well-formed and already normalized:
/// whatever `parse_issue_key` returns has the `PREFIX-NUMBER` shape and
/// uppercasing it again changes nothing.
pub proof fn lemma_parse_issue_key_normalized(raw: Seq<char>)
    ensures
        spec_parse_issue_key(raw) matches Some(k) ==> spec_valid_key(k) && spec_upper(k) == k,
{
    let t = spec_trim_end(spec_trim_start(raw));
    if spec_starts_with(t, "http"@) {
        lemma_scan_parts_normalized(spec_split(t, '/'), 0);
    } else if spec_valid_key(t) {
        lemma_upper_preserves_key(t);
    }
}

/// One attachment descriptor of a fetched issue.
#[derive(Debug, Clone)]
pub struct Attachment {
    pub id: String,
    pub filename: String,
    pub size: u64,
    pub created: Timestamp,
    pub content: String,
    pub mime_type: String,
}

impl Attachment {
    /// The creation date is a representable instant.
    pub open spec fn wf(self) -> bool {
        self.created.wf()
    }
}

/// A fetched issue: key, summary, status and its attachments.
#[derive(Debug, Clone)]
pub struct IssueInfo {
    pub key: String,
    pub summary: String,
    pub status: String,
    pub attachments: Vec<Attachment>,
}

impl IssueInfo {
    pub open spec fn wf(self) -> bool {
        forall|i: int| 0 <= i < self.attachments@.len() ==> (#[trigger] self.attachments@[i]).wf()
    }
}

/// A lighter record for the "my open tickets" listing.
#[derive(Debug, Clone)]
pub struct IssueSummary {
    pub key: String,
    pub summary: String,
    pub status: String,
}


/// View of an attachment: every observable field at the spec level.
pub struct AttachmentV {
    pub id: Seq<char>,
    pub filename: Seq<char>,
    pub size: u64,
    pub created: Timestamp,
    pub content: Seq<char>,
    pub mime_type: Seq<char>,
}

impl View for Attachment {
    type V = AttachmentV;

    open spec fn view(&self) -> AttachmentV {
        AttachmentV {
            id: self.id@,
            filename: self.filename@,
            size: self.size,
            created: self.created,
            content: self.content@,
            mime_type: self.mime_type@,
        }
    }
}

/// View of a fetched issue.
pub struct IssueInfoV {
    pub key: Seq<char>,
    pub summary: Seq<char>,
    pub status: Seq<char>,
    pub attachments: Seq<AttachmentV>,
}

impl View for IssueInfo {
    type V = IssueInfoV;

    open spec fn view(&self) -> IssueInfoV {
        IssueInfoV {
            key: self.key@,
            summary: self.summary@,
            status: self.status@,
            attachments: self.attachments@.map_values(|a: Attachment| a@),
        }
    }
}

/// View of a listing entry.
pub struct IssueSummaryV {
    pub key: Seq<char>,
    pub summary: Seq<char>,
    pub status: Seq<char>,
}

impl View for IssueSummary {
    type V = IssueSummaryV;

    open spec fn view(&self) -> IssueSummaryV {
        IssueSummaryV { key: self.key@, summary: self.summary@, status: self.status@ }
    }
}


/// The attachment a JSON object denotes: `id` and `filename` must be
/// strings; `size` defaults to 0 and must otherwise be a non-negative
/// number; `created` defaults to the Unix epoch and must otherwise be a
/// string in one of the accepted encodings; `content` and `mimeType`
/// default to empty.
pub open spec fn spec_attachment_of(v: JsonVal) -> Option<AttachmentV> {
    match (spec_lookup(v, "id"@), spec_lookup(v, "filename"@)) {
        (Option::Some(JsonVal::Str(id)), Option::Some(JsonVal::Str(fname))) => {
            let size = match spec_lookup(v, "size"@) {
                Option::None => Option::Some(0u64),
                Option::Some(JsonVal::Int(n)) => if 0 <= n {
                    Option::Some(n as u64)
                } else {
                    Option::None
                },
                _ => Option::None,
            };
            let created = match spec_lookup(v, "created"@) {
                Option::None => Option::Some(Timestamp::spec_epoch()),
                Option::Some(JsonVal::Str(c)) => crate::timestamp::spec_parse_timestamp(c@),
                _ => Option::None,
            };
            let content = match spec_lookup(v, "content"@) {
                Option::None => Option::Some(Seq::<char>::empty()),
                Option::Some(JsonVal::Str(c)) => Option::Some(c@),
                _ => Option::None,
            };
            let mime = match spec_lookup(v, "mimeType"@) {
                Option::None => Option::Some(Seq::<char>::empty()),
                Option::Some(JsonVal::Str(c)) => Option::Some(c@),
                _ => Option::None,
            };
            match (size, created, content, mime) {
                (Option::Some(sz), Option::Some(cr), Option::Some(co), Option::Some(mi)) =>
                    Option::Some(
                    AttachmentV {
                        id: id@,
                        filename: fname@,
                        size: sz,
                        created: cr,
                        content: co,
                        mime_type: mi,
                    },
                ),
                _ => Option::None,
            }
        },
        _ => Option::None,
    }
}

/// Reads one attachment from its JSON object.
fn parse_attachment(v: &JsonVal) -> (r: Option<Attachment>)
    ensures
        match (r, spec_attachment_of(*v)) {
            (Some(a), Option::Some(g)) => a@ == g && a.wf(),
            (None, Option::None) => true,
            _ => false,
        },
{
    let id = match crate::json::lookup(v, "id") {
        Some(x) => match crate::json::as_str(x) {
            Some(s) => s.clone(),
            None => {
                return None;
            },
        },
        None => {
            return None;
        },
    };
    let filename = match crate::json::lookup(v, "filename") {
        Some(x) => match crate::json::as_str(x) {
            Some(s) => s.clone(),
            None => {
                return None;
            },
        },
        None => {
            return None;
        },
    };
    let size: u64 = match crate::json::lookup(v, "size") {
        None => 0,
        Some(x) => match crate::json::as_int(x) {
            Some(n) => {
                if n >= 0 {
                    n as u64
                } else {
                    return None;
                }
            },
            None => {
                return None;
            },
        },
    };
    let created: Timestamp = match crate::json::lookup(v, "created") {
        None => Timestamp::epoch(),
        Some(x) => match crate::json::as_str(x) {
            Some(s) => match crate::timestamp::parse_timestamp(s.as_str()) {
                Some(t) => t,
                None => {
                    return None;
                },
            },
            None => {
                return None;
            },
        },
    };
    let content: String = match crate::json::lookup(v, "content") {
        None => String::new(),
        Some(x) => match crate::json::as_str(x) {
            Some(s) => s.clone(),
            None => {
                return None;
            },
        },
    };
    let mime_type: String = match crate::json::lookup(v, "mimeType") {
        None => String::new(),
        Some(x) => match crate::json::as_str(x) {
            Some(s) => s.clone(),
            None => {
                return None;
            },
        },
    };
    proof {
        crate::timestamp::lemma_epoch_wf();
    }
    Some(Attachment { id, filename, size, created, content, mime_type })
}

/// The attachment list a JSON array denotes; nothing when any element
/// is malformed.
pub open spec fn spec_attachments_of(arr: Seq<JsonVal>) -> Option<Seq<AttachmentV>>
    decreases arr.len(),
{
    if arr.len() == 0 {
        Option::Some(Seq::empty())
    } else {
        match (spec_attachments_of(arr.drop_last()), spec_attachment_of(arr.last())) {
            (Option::Some(rest), Option::Some(a)) => Option::Some(rest.push(a)),
            _ => Option::None,
        }
    }
}

/// Reads an attachment array.
fn parse_attachments(arr: &Vec<JsonVal>) -> (r: Option<Vec<Attachment>>)
    ensures
        match (r, spec_attachments_of(arr@)) {
            (Some(l), Option::Some(g)) => l@.map_values(|a: Attachment| a@) == g && forall|i: int|
                0 <= i < l@.len() ==> (#[trigger] l@[i]).wf(),
            (None, Option::None) => true,
            _ => false,
        },
{
    let n = arr.len();
    let mut out: Vec<Attachment> = Vec::new();
    let mut i: usize = 0;
    proof {
        assert(arr@.take(0).len() == 0);
    }
    while i < n
        invariant
            n == arr@.len(),
            i <= n,
            spec_attachments_of(arr@.take(i as int)) == Option::Some(
                out@.map_values(|a: Attachment| a@),
            ),
            forall|t: int| 0 <= t < out@.len() ==> (#[trigger] out@[t]).wf(),
        decreases n - i,
    {
        proof {
            assert(arr@.take(i + 1 as int).drop_last() =~= arr@.take(i as int));
            assert(arr@.take(i + 1 as int).last() == arr@[i as int]);
        }
        match parse_attachment(&arr[i]) {
            Some(a) => {
                out.push(a);
                proof {
                    assert(out@.map_values(|a: Attachment| a@) =~= out@.drop_last().map_values(
                        |a: Attachment| a@,
                    ).push(out@.last()@));
                }
            },
            None => {
                proof {
                    lemma_attachments_of_prefix_none(arr@, i as int);
                }
                return None;
            },
        }
        i = i + 1;
    }
    proof {
        assert(arr@.take(n as int) =~= arr@);
    }
    Some(out)
}

/// A malformed element poisons the whole list.
proof fn lemma_attachments_of_prefix_none(arr: Seq<JsonVal>, i: int)
    requires
        0 <= i < arr.len(),
        spec_attachment_of(arr[i]) is None,
    ensures
        spec_attachments_of(arr) is None,
    decreases arr.len(),
{
    if arr.len() > 0 {
        if i == arr.len() - 1 {
            assert(arr.last() == arr[i]);
        } else {
            assert(arr.drop_last()[i] == arr[i]);
            lemma_attachments_of_prefix_none(arr.drop_last(), i);
        }
    }
}

/// The issue a JSON document denotes: `key` and `fields.status.name`
/// must be strings, `fields.summary` defaults to empty, and
/// `fields.attachment` defaults to the empty list.
pub open spec fn spec_issue_of(v: JsonVal) -> Option<IssueInfoV> {
    match (spec_lookup(v, "key"@), spec_lookup(v, "fields"@)) {
        (Option::Some(JsonVal::Str(key)), Option::Some(fields)) => {
            let summary = match spec_lookup(fields, "summary"@) {
                Option::None => Option::Some(Seq::<char>::empty()),
                Option::Some(JsonVal::Str(s)) => Option::Some(s@),
                _ => Option::None,
            };
            let status = match spec_lookup(fields, "status"@) {
                Option::Some(st) => match spec_lookup(st, "name"@) {
                    Option::Some(JsonVal::Str(n)) => Option::Some(n@),
                    _ => Option::None,
                },
                _ => Option::None,
            };
            let atts = match spec_lookup(fields, "attachment"@) {
                Option::None => Option::Some(Seq::<AttachmentV>::empty()),
                Option::Some(JsonVal::Arr(a)) => spec_attachments_of(a@),
                _ => Option::None,
            };
            match (summary, status, atts) {
                (Option::Some(sm), Option::Some(st), Option::Some(at)) => Option::Some(
                    IssueInfoV { key: key@, summary: sm, status: st, attachments: at },
                ),
                _ => Option::None,
            }
        },
        _ => Option::None,
    }
}

/// Reads a fetched issue from its parsed JSON document.
pub fn parse_issue(v: &JsonVal) -> (r: Option<IssueInfo>)
    ensures
        match (r, spec_issue_of(*v)) {
            (Some(info), Option::Some(g)) => info@ == g && info.wf(),
            (None, Option::None) => true,
            _ => false,
        },
{
    let key = match crate::json::lookup(v, "key") {
        Some(x) => match crate::json::as_str(x) {
            Some(s) => s.clone(),
            None => {
                return None;
            },
        },
        None => {
            return None;
        },
    };
    let fields = match crate::json::lookup(v, "fields") {
        Some(f) => f,
        None => {
            return None;
        },
    };
    let summary = match crate::json::lookup(fields, "summary") {
        None => String::new(),
        Some(x) => match crate::json::as_str(x) {
            Some(s) => s.clone(),
            None => {
                return None;
            },
        },
    };
    let status = match crate::json::lookup(fields, "status") {
        Some(st) => match crate::json::lookup(st, "name") {
            Some(x) => match crate::json::as_str(x) {
                Some(s) => s.clone(),
                None => {
                    return None;
                },
            },
            None => {
                return None;
            },
        },
        None => {
            return None;
        },
    };
    let attachments: Vec<Attachment> = match crate::json::lookup(fields, "attachment") {
        None => Vec::new(),
        Some(x) => match crate::json::as_arr(x) {
            Some(a) => match parse_attachments(a) {
                Some(l) => l,
                None => {
                    return None;
                },
            },
            None => {
                return None;
            },
        },
    };
    let info = IssueInfo { key, summary, status, attachments };
    proof {
        assert(info@.attachments =~= spec_issue_of(*v).unwrap().attachments);
    }
    Some(info)
}

/// The listing a search response denotes: an `issues` array whose
/// elements carry `key` and `fields.summary`/`fields.status.name`.
pub open spec fn spec_summary_of(v: JsonVal) -> Option<IssueSummaryV> {
    match (spec_lookup(v, "key"@), spec_lookup(v, "fields"@)) {
        (Option::Some(JsonVal::Str(key)), Option::Some(fields)) => {
            let summary = match spec_lookup(fields, "summary"@) {
                Option::None => Option::Some(Seq::<char>::empty()),
                Option::Some(JsonVal::Str(s)) => Option::Some(s@),
                _ => Option::None,
            };
            let status = match spec_lookup(fields, "status"@) {
                Option::Some(st) => match spec_lookup(st, "name"@) {
                    Option::Some(JsonVal::Str(n)) => Option::Some(n@),
                    _ => Option::None,
                },
                _ => Option::None,
            };
            match (summary, status) {
                (Option::Some(sm), Option::Some(st)) => Option::Some(
                    IssueSummaryV { key: key@, summary: sm, status: st },
                ),
                _ => Option::None,
            }
        },
        _ => Option::None,
    }
}

fn parse_summary(v: &JsonVal) -> (r: Option<IssueSummary>)
    ensures
        match (r, spec_summary_of(*v)) {
            (Some(s), Option::Some(g)) => s@ == g,
            (None, Option::None) => true,
            _ => false,
        },
{
    let key = match crate::json::lookup(v, "key") {
        Some(x) => match crate::json::as_str(x) {
            Some(s) => s.clone(),
            None => {
                return None;
            },
        },
        None => {
            return None;
        },
    };
    let fields = match crate::json::lookup(v, "fields") {
        Some(f) => f,
        None => {
            return None;
        },
    };
    let summary = match crate::json::lookup(fields, "summary") {
        None => String::new(),
        Some(x) => match crate::json::as_str(x) {
            Some(s) => s.clone(),
            None => {
                return None;
            },
        },
    };
    let status = match crate::json::lookup(fields, "status") {
        Some(st) => match crate::json::lookup(st, "name") {
            Some(x) => match crate::json::as_str(x) {
                Some(s) => s.clone(),
                None => {
                    return None;
                },
            },
            None => {
                return None;
            },
        },
        None => {
            return None;
        },
    };
    Some(IssueSummary { key, summary, status })
}

/// The summaries a search response's `issues` array denotes.
pub open spec fn spec_summaries_of(arr: Seq<JsonVal>) -> Option<Seq<IssueSummaryV>>
    decreases arr.len(),
{
    if arr.len() == 0 {
        Option::Some(Seq::empty())
    } else {
        match (spec_summaries_of(arr.drop_last()), spec_summary_of(arr.last())) {
            (Option::Some(rest), Option::Some(s)) => Option::Some(rest.push(s)),
            _ => Option::None,
        }
    }
}

proof fn lemma_summaries_of_prefix_none(arr: Seq<JsonVal>, i: int)
    requires
        0 <= i < arr.len(),
        spec_summary_of(arr[i]) is None,
    ensures
        spec_summaries_of(arr) is None,
    decreases arr.len(),
{
    if arr.len() > 0 {
        if i == arr.len() - 1 {
            assert(arr.last() == arr[i]);
        } else {
            assert(arr.drop_last()[i] == arr[i]);
            lemma_summaries_of_prefix_none(arr.drop_last(), i);
        }
    }
}

/// The whole search response: nothing unless `issues` is an array of
/// well-formed entries.
pub open spec fn spec_search_of(v: JsonVal) -> Option<Seq<IssueSummaryV>> {
    match spec_lookup(v, "issues"@) {
        Option::Some(JsonVal::Arr(a)) => spec_summaries_of(a@),
        _ => Option::None,
    }
}

/// Reads the issue list from a search response document.
pub fn parse_search(v: &JsonVal) -> (r: Option<Vec<IssueSummary>>)
    ensures
        match (r, spec_search_of(*v)) {
            (Some(l), Option::Some(g)) => l@.map_values(|s: IssueSummary| s@) == g,
            (None, Option::None) => true,
            _ => false,
        },
{
    let arr = match crate::json::lookup(v, "issues") {
        Some(x) => match crate::json::as_arr(x) {
            Some(a) => a,
            None => {
                return None;
            },
        },
        None => {
            return None;
        },
    };
    let n = arr.len();
    let mut out: Vec<IssueSummary> = Vec::new();
    let mut i: usize = 0;
    proof {
        assert(arr@.take(0).len() == 0);
    }
    while i < n
        invariant
            n == arr@.len(),
            i <= n,
            spec_summaries_of(arr@.take(i as int)) == Option::Some(
                out@.map_values(|s: IssueSummary| s@),
            ),
            spec_search_of(*v) == spec_summaries_of(arr@),
        decreases n - i,
    {
        proof {
            assert(arr@.take(i + 1 as int).drop_last() =~= arr@.take(i as int));
            assert(arr@.take(i + 1 as int).last() == arr@[i as int]);
        }
        match parse_summary(&arr[i]) {
            Some(s) => {
                out.push(s);
                proof {
                    assert(out@.map_values(|s: IssueSummary| s@) =~= out@.drop_last().map_values(
                        |s: IssueSummary| s@,
                    ).push(out@.last()@));
                }
            },
            None => {
                proof {
                    lemma_summaries_of_prefix_none(arr@, i as int);
                }
                return None;
            },
        }
        i = i + 1;
    }
    proof {
        assert(arr@.take(n as int) =~= arr@);
    }
    Some(out)
}

/// The display name of a `myself` response; `unknown` when absent.
pub open spec fn spec_display_name_of(v: JsonVal) -> Seq<char> {
    match spec_lookup(v, "displayName"@) {
        Option::Some(JsonVal::Str(s)) => s@,
        _ => "unknown"@,
    }
}

/// Reads the display name from a `myself` response document.
pub fn parse_display_name(v: &JsonVal) -> (r: String)
    ensures
        r@ == spec_display_name_of(*v),
{
    match crate::json::lookup(v, "displayName") {
        Some(x) => match crate::json::as_str(x) {
            Some(s) => s.clone(),
            None => "unknown".to_owned(),
        },
        None => "unknown".to_owned(),
    }
}


/// What `url::Url::parse` extracts from a text: scheme, host (empty
/// when absent), port, and path. A function of the text alone.
pub uninterp spec fn url_parts_of(s: Seq<char>) -> Option<(Seq<char>, Seq<char>, Option<u16>, Seq<char>)>;

/// Relies on url::Url::parse and its accessors `scheme`, `host_str`,
/// `port` and `path`; the extraction is named `url_parts_of`.
#[verifier::external_body]
fn parse_url_parts(s: &str) -> (r: Option<(String, String, Option<u16>, String)>)
    ensures
        match (r, url_parts_of(s@)) {
            (Some(t), Option::Some(g)) => t.0@ == g.0 && t.1@ == g.1 && t.2 == g.2 && t.3@ == g.3,
            (None, Option::None) => true,
            _ => false,
        },
{
    match url::Url::parse(s) {
        Ok(u) => {
            let scheme = u.scheme().to_string();
            let host = u.host_str().unwrap_or("").to_string();
            let port = u.port();
            let path = u.path().to_string();
            Some((scheme, host, port, path))
        },
        Err(_) => None,
    }
}

/// What base64's standard engine encodes a byte string to: a function
/// of the bytes alone.
pub uninterp spec fn base64_of(b: Seq<u8>) -> Seq<char>;

/// Relies on base64's STANDARD engine: deterministic, four characters
/// for every three bytes, padded. The encoding is named `base64_of`.
#[verifier::external_body]
fn base64_encode(b: &[u8]) -> (r: String)
    requires
        b@.len() < usize::MAX / 2,
    ensures
        r@ == base64_of(b@),
        r@.len() == 4 * ((b@.len() + 2) / 3),
{
    base64::Engine::encode(&base64::engine::general_purpose::STANDARD, b)
}

/// What `form_urlencoded::byte_serialize` turns a byte string into: a
/// function of the bytes alone.
pub uninterp spec fn form_encoded_of(b: Seq<u8>) -> Seq<char>;

/// Relies on url's form_urlencoded::byte_serialize; the encoding is
/// named `form_encoded_of`.
#[verifier::external_body]
fn form_urlencode(b: &[u8]) -> (r: String)
    ensures
        r@ == form_encoded_of(b@),
{
    url::form_urlencoded::byte_serialize(b).collect()
}

/// A character encodes to at most four bytes.
proof fn lemma_encode_utf8_len(chars: Seq<char>)
    ensures
        vstd::utf8::encode_utf8(chars).len() <= 4 * chars.len(),
    decreases chars.len(),
{
    if chars.len() > 0 {
        lemma_encode_utf8_len(chars.drop_first());
        assert(vstd::utf8::encode_scalar(chars[0] as u32).len() <= 4);
    }
}

/// The text with every trailing `/` removed.
pub open spec fn spec_trim_slashes(s: Seq<char>) -> Seq<char>
    decreases s.len(),
{
    if s.len() > 0 && s.last() == '/' {
        spec_trim_slashes(s.drop_last())
    } else {
        s
    }
}

proof fn lemma_trim_slashes_take(s: Seq<char>, i: int)
    requires
        0 <= i <= s.len(),
        forall|j: int| i <= j < s.len() ==> s[j] == '/',
    ensures
        spec_trim_slashes(s) == spec_trim_slashes(s.take(i)),
    decreases s.len() - i,
{
    if i < s.len() {
        assert(s.last() == '/');
        assert(s.drop_last() =~= s.take(s.len() - 1));
        assert(s.take(s.len() - 1).take(i) =~= s.take(i));
        lemma_trim_slashes_take(s.take(s.len() - 1), i);
    } else {
        assert(s.take(i) =~= s);
    }
}

fn trim_slashes(s: &str) -> (r: &str)
    ensures
        r@ == spec_trim_slashes(s@),
{
    let len = s.unicode_len();
    let mut i: usize = len;
    while i > 0 && s.get_char(i - 1) == '/'
        invariant
            len == s@.len(),
            i <= len,
            forall|j: int| i <= j < len ==> s@[j] == '/',
        decreases i,
    {
        i = i - 1;
    }
    let r = s.substring_char(0, i);
    proof {
        lemma_trim_slashes_take(s@, i as int);
        assert(s@.subrange(0, i as int) =~= s@.take(i as int));
        if i > 0 {
            assert(s@.take(i as int).last() == s@[i - 1]);
        }
    }
    r
}

/// The base URL a configured tracker address reduces to: scheme, host,
/// optional port, and any context path, with trailing slashes dropped;
/// the address itself when it does not parse as a URL.
pub open spec fn spec_base_url(raw: Seq<char>) -> Seq<char> {
    let t = spec_trim_slashes(raw);
    match url_parts_of(t) {
        Option::None => t,
        Option::Some((scheme, host, port, path)) => {
            let with_port = match port {
                Option::Some(p) => scheme + "://"@ + host + ":"@ + crate::text::spec_dec(p as nat),
                Option::None => scheme + "://"@ + host,
            };
            let tp = spec_trim_slashes(path);
            if tp.len() > 0 && tp != "/"@ {
                with_port + tp
            } else {
                with_port
            }
        },
    }
}

/// The tracker client's pure core: everything that can be decided from
/// the configuration and from already-fetched responses.
pub struct JiraClient {
    pub config: crate::config::AppConfig,
}

impl JiraClient {
    pub fn new(config: crate::config::AppConfig) -> (r: JiraClient)
        ensures
            r.config == config,
    {
        JiraClient { config }
    }

    /// Scheme, host, optional port and context path of the configured
    /// address.
    pub fn base_url(&self) -> (r: String)
        ensures
            r@ == spec_base_url(self.config.jira_url@),
    {
        let t = trim_slashes(self.config.jira_url.as_str());
        match parse_url_parts(t) {
            None => t.to_owned(),
            Some((scheme, host, port, path)) => {
                let mut base = scheme;
                base.append("://");
                base.append(host.as_str());
                match port {
                    Some(p) => {
                        base.append(":");
                        base.append(crate::text::u64_to_dec(p as u64).as_str());
                    },
                    None => {},
                }
                let tp = trim_slashes(path.as_str());
                let keep = if tp.unicode_len() == 0 {
                    false
                } else {
                    !crate::text::str_eq(tp, "/")
                };
                if keep {
                    base.append(tp);
                }
                base
            },
        }
    }

    /// The `Authorization` header value: basic credentials over
    /// `email:token`.
    pub fn auth_header(&self) -> (r: String)
        requires
            self.config.email@.len() + self.config.api_token@.len() < 100000,
        ensures
            r@ == "Basic "@ + base64_of(
                vstd::utf8::encode_utf8(
                    self.config.email@ + ":"@ + self.config.api_token@,
                ),
            ),
    {
        let mut creds = self.config.email.clone();
        creds.append(":");
        creds.append(self.config.api_token.as_str());
        proof {
            reveal_strlit(":");
            lemma_encode_utf8_len(creds@);
        }
        let b = creds.as_str().as_bytes();
        proof {
            assert(b@ == vstd::utf8::encode_utf8(creds@));
            assert(b@.len() <= 4 * creds@.len());
            assert(usize::MAX >= 0xffff_ffff);
        }
        let mut r = "Basic ".to_owned();
        r.append(base64_encode(b).as_str());
        r
    }

    /// `{base}/rest/api/{ver}/myself`.
    pub fn myself_url(&self, ver: &str) -> (r: String)
        ensures
            r@ == spec_base_url(self.config.jira_url@) + "/rest/api/"@ + ver@ + "/myself"@,
    {
        let mut u = self.base_url();
        u.append("/rest/api/");
        u.append(ver);
        u.append("/myself");
        u
    }

    /// `{base}/rest/api/{ver}/issue/{KEY}?fields=summary,status,attachment`.
    pub fn issue_url(&self, ver: &str, key: &str) -> (r: String)
        ensures
            r@ == spec_base_url(self.config.jira_url@) + "/rest/api/"@ + ver@ + "/issue/"@ + key@
                + "?fields=summary,status,attachment"@,
    {
        let mut u = self.base_url();
        u.append("/rest/api/");
        u.append(ver);
        u.append("/issue/");
        u.append(key);
        u.append("?fields=summary,status,attachment");
        u
    }

    /// `{base}/rest/api/{ver}/issue/{KEY}?fields=status`.
    pub fn status_url(&self, ver: &str, key: &str) -> (r: String)
        ensures
            r@ == spec_base_url(self.config.jira_url@) + "/rest/api/"@ + ver@ + "/issue/"@ + key@
                + "?fields=status"@,
    {
        let mut u = self.base_url();
        u.append("/rest/api/");
        u.append(ver);
        u.append("/issue/");
        u.append(key);
        u.append("?fields=status");
        u
    }

    /// `{base}/{endpoint}?jql={encoded}&fields=summary,status&maxResults=100`
    /// for the fixed "my open tickets" query.
    pub fn search_url(&self, endpoint: &str) -> (r: String)
        ensures
            r@ == spec_base_url(self.config.jira_url@) + "/"@ + endpoint@ + "?jql="@
                + form_encoded_of(vstd::utf8::encode_utf8(spec_my_issues_jql())) + "&fields=summary,status&maxResults=100"@,
    {
        let jql = my_issues_jql();
        let enc = form_urlencode(jql.as_bytes());
        let mut u = self.base_url();
        u.append("/");
        u.append(endpoint);
        u.append("?jql=");
        u.append(enc.as_str());
        u.append("&fields=summary,status&maxResults=100");
        u
    }
}

/// The fixed listing query: the caller's unresolved tickets, newest
/// first.
pub open spec fn spec_my_issues_jql() -> Seq<char> {
    "assignee = currentUser() AND statusCategory != Done ORDER BY updated DESC"@
}

fn my_issues_jql() -> (r: &'static str)
    ensures
        r@ == spec_my_issues_jql(),
{
    "assignee = currentUser() AND statusCategory != Done ORDER BY updated DESC"
}


/// One HTTP response, as plain values: status code, content type, body.
#[derive(Debug, Clone)]
pub struct HttpResponse {
    pub status: u16,
    pub content_type: String,
    pub body: String,
}

/// What one negotiation attempt decides.
#[derive(Debug)]
pub enum StepResult<T> {
    /// This version answered; here is the payload.
    Success(T),
    /// This version is absent on the deployment; try the next one.
    TryNext,
    /// A terminal failure; no further version is tried.
    Fail(String),
}

/// Spec-level counterpart of `StepResult`, over views.
pub enum StepV<V> {
    Success(V),
    TryNext,
    Fail(Seq<char>),
}

/// An HTML page where JSON was expected: by content type or by body
/// prefix.
pub open spec fn spec_is_html(ct: Seq<char>, body: Seq<char>) -> bool {
    ||| spec_contains(ct, "text/html"@)
    ||| spec_starts_with(spec_trim_start(body), "<!doctype"@)
    ||| spec_starts_with(spec_trim_start(body), "<html"@)
}

/// The diagnostic for an HTML response.
pub open spec fn spec_html_error(status: u16, url: Seq<char>) -> Seq<char> {
    "Got an HTML page instead of JSON (status: "@ + crate::text::spec_dec(status as nat)
        + ").\nThis usually means:\n\u{2022} SSO/login redirect \u{2014} credentials not accepted by the server\n\u{2022} Wrong JIRA URL \u{2014} use only the base URL, e.g. https://company.atlassian.net\n\u{2022} Jira Server with context path \u{2014} try https://company.atlassian.net/jira\nURL called: "@
        + url
}

/// The first `n` characters of a body, for diagnostics.
pub open spec fn spec_truncate(s: Seq<char>, n: int) -> Seq<char> {
    if s.len() <= n {
        s
    } else {
        s.subrange(0, n)
    }
}

/// Detects an HTML page where JSON was expected and builds the
/// diagnostic naming the likely causes.
pub fn check_html_response(status: u16, content_type: &str, body: &str, url: &str) -> (r: Option<
    String,
>)
    ensures
        match r {
            Some(m) => spec_is_html(content_type@, body@) && m@ == spec_html_error(status, url@),
            None => !spec_is_html(content_type@, body@),
        },
{
    let t = crate::text::trim_start(body);
    let is_html = crate::text::contains(content_type, "text/html") || crate::text::starts_with(
        t,
        "<!doctype",
    ) || crate::text::starts_with(t, "<html");
    if is_html {
        let mut m =
            "Got an HTML page instead of JSON (status: ".to_owned();
        m.append(crate::text::u64_to_dec(status as u64).as_str());
        m.append(
            ").\nThis usually means:\n\u{2022} SSO/login redirect \u{2014} credentials not accepted by the server\n\u{2022} Wrong JIRA URL \u{2014} use only the base URL, e.g. https://company.atlassian.net\n\u{2022} Jira Server with context path \u{2014} try https://company.atlassian.net/jira\nURL called: ",
        );
        m.append(url);
        Some(m)
    } else {
        None
    }
}

/// Whether a status code is a success.
pub open spec fn spec_success(status: u16) -> bool {
    200 <= status < 300
}

/// The diagnostic for an issue response that is not well-formed.
pub open spec fn spec_issue_parse_error(ver: Seq<char>, body: Seq<char>) -> Seq<char> {
    "Failed to parse response (API v"@ + ver + "): the response is not a well-formed issue\nRaw: "@
        + spec_truncate(body, 500)
}

fn issue_parse_error(ver: &str, body: &str) -> (r: String)
    ensures
        r@ == spec_issue_parse_error(ver@, body@),
{
    let mut m = "Failed to parse response (API v".to_owned();
    m.append(ver);
    m.append("): the response is not a well-formed issue\nRaw: ");
    m.append(crate::text::truncate_chars(body, 500).as_str());
    m
}

/// The diagnostic for a plain HTTP failure on the issue endpoint.
pub open spec fn spec_http_error(status: u16, url: Seq<char>, body: Seq<char>) -> Seq<char> {
    "HTTP "@ + crate::text::spec_dec(status as nat) + "\nURL: "@ + url + "\nBody: "@
        + spec_truncate(body, 300)
}

fn http_error(status: u16, url: &str, body: &str) -> (r: String)
    ensures
        r@ == spec_http_error(status, url@, body@),
{
    let mut m = "HTTP ".to_owned();
    m.append(crate::text::u64_to_dec(status as u64).as_str());
    m.append("\nURL: ");
    m.append(url);
    m.append("\nBody: ");
    m.append(crate::text::truncate_chars(body, 300).as_str());
    m
}

/// The diagnostic for a plain HTTP failure, short form.
pub open spec fn spec_http_error_short(status: u16, body: Seq<char>, n: int) -> Seq<char> {
    "HTTP "@ + crate::text::spec_dec(status as nat) + ": "@ + spec_truncate(body, n)
}

fn http_error_short(status: u16, body: &str, n: usize) -> (r: String)
    ensures
        r@ == spec_http_error_short(status, body@, n as int),
{
    let mut m = "HTTP ".to_owned();
    m.append(crate::text::u64_to_dec(status as u64).as_str());
    m.append(": ");
    m.append(crate::text::truncate_chars(body, n).as_str());
    m
}

/// One attempt of the issue fetch against one API version: an HTML page
/// is terminal; a 404 defers to the next version unless this is the
/// last; any other non-success is terminal; otherwise the body must
/// parse as an issue.
pub open spec fn spec_issue_step(
    resp: HttpResponse,
    url: Seq<char>,
    ver: Seq<char>,
    is_last: bool,
) -> StepV<IssueInfoV> {
    if spec_is_html(resp.content_type@, resp.body@) {
        StepV::Fail(spec_html_error(resp.status, url))
    } else if resp.status == 404 && !is_last {
        StepV::TryNext
    } else if !spec_success(resp.status) {
        StepV::Fail(spec_http_error(resp.status, url, resp.body@))
    } else {
        match crate::json::json_of(resp.body@) {
            Option::Some(v) => match spec_issue_of(v) {
                Option::Some(info) => StepV::Success(info),
                Option::None => StepV::Fail(spec_issue_parse_error(ver, resp.body@)),
            },
            Option::None => StepV::Fail(spec_issue_parse_error(ver, resp.body@)),
        }
    }
}

/// Decides one issue-fetch attempt from its response.
pub fn issue_step(resp: &HttpResponse, url: &str, ver: &str, is_last: bool) -> (r: StepResult<
    IssueInfo,
>)
    ensures
        match (r, spec_issue_step(*resp, url@, ver@, is_last)) {
            (StepResult::Success(i), StepV::Success(g)) => i@ == g && i.wf(),
            (StepResult::TryNext, StepV::TryNext) => true,
            (StepResult::Fail(m), StepV::Fail(g)) => m@ == g,
            _ => false,
        },
{
    match check_html_response(resp.status, resp.content_type.as_str(), resp.body.as_str(), url) {
        Some(m) => {
            return StepResult::Fail(m);
        },
        None => {},
    }
    if resp.status == 404 && !is_last {
        return StepResult::TryNext;
    }
    if !(200 <= resp.status && resp.status < 300) {
        return StepResult::Fail(http_error(resp.status, url, resp.body.as_str()));
    }
    match crate::json::parse_json(resp.body.as_str()) {
        Some(v) => match parse_issue(&v) {
            Some(info) => StepResult::Success(info),
            None => StepResult::Fail(issue_parse_error(ver, resp.body.as_str())),
        },
        None => StepResult::Fail(issue_parse_error(ver, resp.body.as_str())),
    }
}

impl JiraClient {
    /// `myself_url`, at the spec level.
    pub open spec fn spec_myself_url(self, ver: Seq<char>) -> Seq<char> {
        spec_base_url(self.config.jira_url@) + "/rest/api/"@ + ver + "/myself"@
    }

    /// `issue_url`, at the spec level.
    pub open spec fn spec_issue_url(self, ver: Seq<char>, key: Seq<char>) -> Seq<char> {
        spec_base_url(self.config.jira_url@) + "/rest/api/"@ + ver + "/issue/"@ + key
            + "?fields=summary,status,attachment"@
    }

    /// `status_url`, at the spec level.
    pub open spec fn spec_status_url(self, ver: Seq<char>, key: Seq<char>) -> Seq<char> {
        spec_base_url(self.config.jira_url@) + "/rest/api/"@ + ver + "/issue/"@ + key
            + "?fields=status"@
    }

    /// The issue fetch across the two API versions: version 3 first,
    /// version 2 exactly when 3 answered 404. The last arm cannot be
    /// reached: the final version never defers.
    pub open spec fn spec_fetch_issue_outcome(
        self,
        key: Seq<char>,
        resp3: HttpResponse,
        resp2: HttpResponse,
    ) -> Result<IssueInfoV, Seq<char>> {
        match spec_issue_step(resp3, self.spec_issue_url("3"@, key), "3"@, false) {
            StepV::Success(i) => Result::Ok(i),
            StepV::Fail(m) => Result::Err(m),
            StepV::TryNext => match spec_issue_step(
                resp2,
                self.spec_issue_url("2"@, key),
                "2"@,
                true,
            ) {
                StepV::Success(i) => Result::Ok(i),
                StepV::Fail(m) => Result::Err(m),
                StepV::TryNext => Result::Err(Seq::empty()),
            },
        }
    }

    /// Resolves an issue fetch from the two versions' responses. The
    /// second response is consulted exactly when version 3 answers 404:
    /// a missing endpoint is not a failure until every version is
    /// exhausted.
    pub fn fetch_issue_outcome(
        &self,
        key: &str,
        resp3: &HttpResponse,
        resp2: &HttpResponse,
    ) -> (r: Result<IssueInfo, String>)
        ensures
            match (r, self.spec_fetch_issue_outcome(key@, *resp3, *resp2)) {
                (Result::Ok(i), Result::Ok(g)) => i@ == g && i.wf(),
                (Result::Err(e), Result::Err(g)) => e@ == g,
                _ => false,
            },
    {
        let url3 = self.issue_url("3", key);
        match issue_step(resp3, url3.as_str(), "3", false) {
            StepResult::Success(i) => Ok(i),
            StepResult::Fail(m) => Err(m),
            StepResult::TryNext => {
                let url2 = self.issue_url("2", key);
                match issue_step(resp2, url2.as_str(), "2", true) {
                    StepResult::Success(i) => Ok(i),
                    StepResult::Fail(m) => Err(m),
                    StepResult::TryNext => {
                        // The last version never defers.
                        proof {
                            assert(false);
                        }
                        Err(String::new())
                    },
                }
            },
        }
    }
}


/// The diagnostic for a status response that is not well-formed.
pub open spec fn spec_status_parse_error() -> Seq<char> {
    "Parse error: the response is not a well-formed issue"@
}

/// One attempt of the status fetch against one API version.
pub open spec fn spec_status_step(resp: HttpResponse, url: Seq<char>, is_last: bool) -> StepV<
    Seq<char>,
> {
    if spec_is_html(resp.content_type@, resp.body@) {
        StepV::Fail(spec_html_error(resp.status, url))
    } else if resp.status == 404 && !is_last {
        StepV::TryNext
    } else if !spec_success(resp.status) {
        StepV::Fail(spec_http_error_short(resp.status, resp.body@, 200))
    } else {
        match crate::json::json_of(resp.body@) {
            Option::Some(v) => match spec_issue_of(v) {
                Option::Some(info) => StepV::Success(info.status),
                Option::None => StepV::Fail(spec_status_parse_error()),
            },
            Option::None => StepV::Fail(spec_status_parse_error()),
        }
    }
}

/// Decides one status-fetch attempt from its response.
pub fn status_step(resp: &HttpResponse, url: &str, is_last: bool) -> (r: StepResult<String>)
    ensures
        match (r, spec_status_step(*resp, url@, is_last)) {
            (StepResult::Success(s), StepV::Success(g)) => s@ == g,
            (StepResult::TryNext, StepV::TryNext) => true,
            (StepResult::Fail(m), StepV::Fail(g)) => m@ == g,
            _ => false,
        },
{
    match check_html_response(resp.status, resp.content_type.as_str(), resp.body.as_str(), url) {
        Some(m) => {
            return StepResult::Fail(m);
        },
        None => {},
    }
    if resp.status == 404 && !is_last {
        return StepResult::TryNext;
    }
    if !(200 <= resp.status && resp.status < 300) {
        return StepResult::Fail(http_error_short(resp.status, resp.body.as_str(), 200));
    }
    match crate::json::parse_json(resp.body.as_str()) {
        Some(v) => match parse_issue(&v) {
            Some(info) => StepResult::Success(info.status),
            None => StepResult::Fail("Parse error: the response is not a well-formed issue".to_owned()),
        },
        None => StepResult::Fail("Parse error: the response is not a well-formed issue".to_owned()),
    }
}

/// The diagnostic for a search response that is not well-formed.
pub open spec fn spec_search_parse_error(body: Seq<char>) -> Seq<char> {
    "Failed to parse search response: the issues are malformed\nRaw: "@ + spec_truncate(body, 300)
}

/// One attempt of the listing fetch against one search endpoint: the
/// modern endpoint's 404 or 410 defers to the legacy one.
pub open spec fn spec_search_step(resp: HttpResponse, url: Seq<char>, is_modern: bool) -> StepV<
    Seq<IssueSummaryV>,
> {
    if spec_is_html(resp.content_type@, resp.body@) {
        StepV::Fail(spec_html_error(resp.status, url))
    } else if (resp.status == 404 || resp.status == 410) && is_modern {
        StepV::TryNext
    } else if !spec_success(resp.status) {
        StepV::Fail(spec_http_error_short(resp.status, resp.body@, 300))
    } else {
        match crate::json::json_of(resp.body@) {
            Option::Some(v) => match spec_search_of(v) {
                Option::Some(l) => StepV::Success(l),
                Option::None => StepV::Fail(spec_search_parse_error(resp.body@)),
            },
            Option::None => StepV::Fail(spec_search_parse_error(resp.body@)),
        }
    }
}

/// Decides one listing attempt from its response.
pub fn search_step(resp: &HttpResponse, url: &str, is_modern: bool) -> (r: StepResult<
    Vec<IssueSummary>,
>)
    ensures
        match (r, spec_search_step(*resp, url@, is_modern)) {
            (StepResult::Success(l), StepV::Success(g)) => l@.map_values(|s: IssueSummary| s@)
                == g,
            (StepResult::TryNext, StepV::TryNext) => true,
            (StepResult::Fail(m), StepV::Fail(g)) => m@ == g,
            _ => false,
        },
{
    match check_html_response(resp.status, resp.content_type.as_str(), resp.body.as_str(), url) {
        Some(m) => {
            return StepResult::Fail(m);
        },
        None => {},
    }
    if (resp.status == 404 || resp.status == 410) && is_modern {
        return StepResult::TryNext;
    }
    if !(200 <= resp.status && resp.status < 300) {
        return StepResult::Fail(http_error_short(resp.status, resp.body.as_str(), 300));
    }
    match crate::json::parse_json(resp.body.as_str()) {
        Some(v) => match parse_search(&v) {
            Some(l) => {
                return StepResult::Success(l);
            },
            None => {},
        },
        None => {},
    }
    let mut m = "Failed to parse search response: the issues are malformed\nRaw: ".to_owned();
    m.append(crate::text::truncate_chars(resp.body.as_str(), 300).as_str());
    StepResult::Fail(m)
}

/// The diagnostic for a connection test whose body is not JSON.
pub open spec fn spec_myself_parse_error(body: Seq<char>) -> Seq<char> {
    "Parse error: the response is not JSON\nBody: "@ + spec_truncate(body, 300)
}

/// One attempt of the connection test against one API version: an HTML
/// page is terminal, a success must carry JSON, and any other failure
/// defers to the next version.
pub open spec fn spec_connection_step(resp: HttpResponse, url: Seq<char>, ver: Seq<char>) -> StepV<
    Seq<char>,
> {
    if spec_is_html(resp.content_type@, resp.body@) {
        StepV::Fail(spec_html_error(resp.status, url))
    } else if spec_success(resp.status) {
        match crate::json::json_of(resp.body@) {
            Option::Some(v) => StepV::Success(
                "Connected as: "@ + spec_display_name_of(v) + " (API v"@ + ver + ")"@,
            ),
            Option::None => StepV::Fail(spec_myself_parse_error(resp.body@)),
        }
    } else {
        StepV::TryNext
    }
}

/// Decides one connection-test attempt from its response.
pub fn connection_step(resp: &HttpResponse, url: &str, ver: &str) -> (r: StepResult<String>)
    ensures
        match (r, spec_connection_step(*resp, url@, ver@)) {
            (StepResult::Success(s), StepV::Success(g)) => s@ == g,
            (StepResult::TryNext, StepV::TryNext) => true,
            (StepResult::Fail(m), StepV::Fail(g)) => m@ == g,
            _ => false,
        },
{
    match check_html_response(resp.status, resp.content_type.as_str(), resp.body.as_str(), url) {
        Some(m) => {
            return StepResult::Fail(m);
        },
        None => {},
    }
    if 200 <= resp.status && resp.status < 300 {
        match crate::json::parse_json(resp.body.as_str()) {
            Some(v) => {
                let name = parse_display_name(&v);
                let mut msg = "Connected as: ".to_owned();
                msg.append(name.as_str());
                msg.append(" (API v");
                msg.append(ver);
                msg.append(")");
                StepResult::Success(msg)
            },
            None => {
                let mut m = "Parse error: the response is not JSON\nBody: ".to_owned();
                m.append(crate::text::truncate_chars(resp.body.as_str(), 300).as_str());
                StepResult::Fail(m)
            },
        }
    } else {
        StepResult::TryNext
    }
}

impl JiraClient {
    /// The message when every version fails the connection test.
    pub open spec fn spec_auth_failed(self) -> Seq<char> {
        "Authentication failed.\nCheck your email and API token.\nJIRA URL: "@ + spec_base_url(
            self.config.jira_url@,
        )
    }

    /// The connection test across the two API versions.
    pub open spec fn spec_test_connection_outcome(
        self,
        resp3: HttpResponse,
        resp2: HttpResponse,
    ) -> Result<Seq<char>, Seq<char>> {
        match spec_connection_step(resp3, self.spec_myself_url("3"@), "3"@) {
            StepV::Success(m) => Result::Ok(m),
            StepV::Fail(m) => Result::Err(m),
            StepV::TryNext => match spec_connection_step(resp2, self.spec_myself_url("2"@), "2"@) {
                StepV::Success(m) => Result::Ok(m),
                StepV::Fail(m) => Result::Err(m),
                StepV::TryNext => Result::Err(self.spec_auth_failed()),
            },
        }
    }

    /// Resolves the connection test from the two versions' responses.
    pub fn test_connection_outcome(&self, resp3: &HttpResponse, resp2: &HttpResponse) -> (r: Result<
        String,
        String,
    >)
        ensures
            match (r, self.spec_test_connection_outcome(*resp3, *resp2)) {
                (Result::Ok(m), Result::Ok(g)) => m@ == g,
                (Result::Err(e), Result::Err(g)) => e@ == g,
                _ => false,
            },
    {
        let url3 = self.myself_url("3");
        match connection_step(resp3, url3.as_str(), "3") {
            StepResult::Success(m) => Ok(m),
            StepResult::Fail(m) => Err(m),
            StepResult::TryNext => {
                let url2 = self.myself_url("2");
                match connection_step(resp2, url2.as_str(), "2") {
                    StepResult::Success(m) => Ok(m),
                    StepResult::Fail(m) => Err(m),
                    StepResult::TryNext => {
                        let mut m =
                            "Authentication failed.\nCheck your email and API token.\nJIRA URL: ".to_owned();
                        m.append(self.base_url().as_str());
                        Err(m)
                    },
                }
            },
        }
    }

    /// `search_url`, at the spec level.
    pub open spec fn spec_search_url(self, endpoint: Seq<char>) -> Seq<char> {
        spec_base_url(self.config.jira_url@) + "/"@ + endpoint + "?jql="@ + form_encoded_of(
            vstd::utf8::encode_utf8(spec_my_issues_jql()),
        ) + "&fields=summary,status&maxResults=100"@
    }

    /// The listing fetch across the two search endpoints: the modern
    /// one first, the legacy one exactly when it answered 404 or 410.
    /// The last arm cannot be reached: the legacy endpoint never defers.
    pub open spec fn spec_fetch_my_issues_outcome(
        self,
        resp_modern: HttpResponse,
        resp_legacy: HttpResponse,
    ) -> Result<Seq<IssueSummaryV>, Seq<char>> {
        match spec_search_step(resp_modern, self.spec_search_url("rest/api/3/search/jql"@), true) {
            StepV::Success(l) => Result::Ok(l),
            StepV::Fail(m) => Result::Err(m),
            StepV::TryNext => match spec_search_step(
                resp_legacy,
                self.spec_search_url("rest/api/2/search"@),
                false,
            ) {
                StepV::Success(l) => Result::Ok(l),
                StepV::Fail(m) => Result::Err(m),
                StepV::TryNext => Result::Ok(Seq::empty()),
            },
        }
    }

    /// Resolves the listing fetch from the two endpoints' responses.
    pub fn fetch_my_issues_outcome(
        &self,
        resp_modern: &HttpResponse,
        resp_legacy: &HttpResponse,
    ) -> (r: Result<Vec<IssueSummary>, String>)
        ensures
            match (r, self.spec_fetch_my_issues_outcome(*resp_modern, *resp_legacy)) {
                (Result::Ok(l), Result::Ok(g)) => l@.map_values(|s: IssueSummary| s@) == g,
                (Result::Err(e), Result::Err(g)) => e@ == g,
                _ => false,
            },
    {
        let urlm = self.search_url("rest/api/3/search/jql");
        match search_step(resp_modern, urlm.as_str(), true) {
            StepResult::Success(l) => Ok(l),
            StepResult::Fail(m) => Err(m),
            StepResult::TryNext => {
                let urll = self.search_url("rest/api/2/search");
                match search_step(resp_legacy, urll.as_str(), false) {
                    StepResult::Success(l) => Ok(l),
                    StepResult::Fail(m) => Err(m),
                    StepResult::TryNext => {
                        let l: Vec<IssueSummary> = Vec::new();
                        proof {
                            assert(l@.map_values(|s: IssueSummary| s@) =~= Seq::<
                                IssueSummaryV,
                            >::empty());
                        }
                        Ok(l)
                    },
                }
            },
        }
    }

    /// The status fetch across the two API versions. The last arm
    /// cannot be reached: the final version never defers.
    pub open spec fn spec_fetch_issue_status_outcome(
        self,
        key: Seq<char>,
        resp3: HttpResponse,
        resp2: HttpResponse,
    ) -> Result<Seq<char>, Seq<char>> {
        match spec_status_step(resp3, self.spec_status_url("3"@, key), false) {
            StepV::Success(s) => Result::Ok(s),
            StepV::Fail(m) => Result::Err(m),
            StepV::TryNext => match spec_status_step(resp2, self.spec_status_url("2"@, key), true) {
                StepV::Success(s) => Result::Ok(s),
                StepV::Fail(m) => Result::Err(m),
                StepV::TryNext => Result::Err(Seq::empty()),
            },
        }
    }

    /// Resolves a status fetch from the two versions' responses.
    pub fn fetch_issue_status_outcome(
        &self,
        key: &str,
        resp3: &HttpResponse,
        resp2: &HttpResponse,
    ) -> (r: Result<String, String>)
        ensures
            match (r, self.spec_fetch_issue_status_outcome(key@, *resp3, *resp2)) {
                (Result::Ok(s), Result::Ok(g)) => s@ == g,
                (Result::Err(e), Result::Err(g)) => e@ == g,
                _ => false,
            },
    {
        let url3 = self.status_url("3", key);
        match status_step(resp3, url3.as_str(), false) {
            StepResult::Success(s) => Ok(s),
            StepResult::Fail(m) => Err(m),
            StepResult::TryNext => {
                let url2 = self.status_url("2", key);
                match status_step(resp2, url2.as_str(), true) {
                    StepResult::Success(s) => Ok(s),
                    StepResult::Fail(m) => Err(m),
                    StepResult::TryNext => {
                        // The last version never defers.
                        proof {
                            assert(false);
                        }
                        Err(String::new())
                    },
                }
            },
        }
    }
}

} // verus!
