//! The on-disk incident layout: paths, the per-ticket control record,
//! collision-free attachment names, and the incident scan.
//!
//! Nothing here touches the filesystem. Callers read directories and
//! files, hand the plain contents in, and write back what these
//! functions return.

use vstd::prelude::*;

use crate::jira::Attachment;
use crate::text::{contains, spec_chars_le, spec_contains, str_eq};
use crate::timestamp::{spec_date_string, date_string, Timestamp};

verus! {

/// The persisted lifecycle record of one downloaded ticket.
#[derive(Debug, Clone)]
pub struct ControlFile {
    pub issue_key: String,
    pub issue_summary: String,
    pub issue_status: String,
    pub last_checked: Timestamp,
    pub marked_for_deletion: bool,
}

/// What `str::to_lowercase` returns for a given text: a function of the
/// characters alone.
pub uninterp spec fn lower_of(s: Seq<char>) -> Seq<char>;

/// Relies on str::to_lowercase; the result is named `lower_of`.
#[verifier::external_body]
fn lowercase(s: &str) -> (r: String)
    ensures
        r@ == lower_of(s@),
{
    s.to_lowercase()
}

/// The closed-status heuristic over an already-lowercased status text:
/// an exact `done`/`closed`/`resolved`, or a `clos`/`resolv` fragment.
pub open spec fn spec_closed_status(lowered: Seq<char>) -> bool {
    ||| lowered == "done"@
    ||| lowered == "closed"@
    ||| lowered == "resolved"@
    ||| spec_contains(lowered, "clos"@)
    ||| spec_contains(lowered, "resolv"@)
}

/// Classifies an already-lowercased status text as closed.
pub fn is_closed_status(s: &str) -> (r: bool)
    ensures
        r == spec_closed_status(s@),
{
    str_eq(s, "done") || str_eq(s, "closed") || str_eq(s, "resolved") || contains(s, "clos")
        || contains(s, "resolv")
}

impl ControlFile {
    /// A fresh record: unmarked, checked now.
    pub fn new(key: &str, summary: &str, status: &str) -> (r: ControlFile)
        ensures
            r.issue_key@ == key@,
            r.issue_summary@ == summary@,
            r.issue_status@ == status@,
            r.marked_for_deletion == false,
            r.last_checked.wf(),
    {
        ControlFile {
            issue_key: key.to_owned(),
            issue_summary: summary.to_owned(),
            issue_status: status.to_owned(),
            last_checked: crate::timestamp::now(),
            marked_for_deletion: false,
        }
    }

    /// Whether the recorded status is classified closed.
    pub fn is_closed(&self) -> (r: bool)
        ensures
            r == spec_closed_status(lower_of(self.issue_status@)),
    {
        let low = lowercase(self.issue_status.as_str());
        is_closed_status(low.as_str())
    }

    /// Records a freshly fetched status: the check time moves to now and
    /// the deletion mark is set exactly when the status is classified
    /// closed.
    pub fn record_status(&mut self, status: String)
        ensures
            final(self).issue_status@ == status@,
            final(self).marked_for_deletion == spec_closed_status(lower_of(status@)),
            final(self).last_checked.wf(),
            final(self).issue_key == old(self).issue_key,
            final(self).issue_summary == old(self).issue_summary,
    {
        self.issue_status = status;
        self.last_checked = crate::timestamp::now();
        self.marked_for_deletion = self.is_closed();
    }

    /// The record is representable on disk.
    pub open spec fn wf(self) -> bool {
        self.last_checked.wf()
    }
}

/// An incident: a ticket folder with its control record and total size.
#[derive(Debug, Clone)]
pub struct IncidentFolder {
    pub path: String,
    pub control: ControlFile,
    pub folder_size: u64,
}

/// What one scanned subdirectory looks like to the library: its path,
/// the control file's text when one exists, and its recursive byte size.
#[derive(Debug, Clone)]
pub struct ScanEntry {
    pub path: String,
    pub control_data: Option<String>,
    pub folder_size: u64,
}

/// Owner of the on-disk layout `{base_dir}/{KEY}/{YYYY-MM-DD}/{file}`.
#[derive(Debug, Clone)]
pub struct StorageManager {
    pub base_dir: String,
}

impl StorageManager {
    pub fn new(base_dir: String) -> (r: StorageManager)
        ensures
            r.base_dir@ == base_dir@,
    {
        StorageManager { base_dir }
    }

    /// `{base_dir}/{KEY}`.
    pub open spec fn spec_issue_dir(self, issue_key: Seq<char>) -> Seq<char> {
        self.base_dir@ + "/"@ + issue_key
    }

    /// The folder of one ticket.
    pub fn issue_dir(&self, issue_key: &str) -> (r: String)
        ensures
            r@ == self.spec_issue_dir(issue_key@),
    {
        let mut s = self.base_dir.clone();
        s.append("/");
        s.append(issue_key);
        s
    }

    /// `{base_dir}/{KEY}/.jira_control.json`.
    pub open spec fn spec_control_file_path(self, issue_key: Seq<char>) -> Seq<char> {
        self.spec_issue_dir(issue_key) + "/.jira_control.json"@
    }

    /// Where the ticket's control record lives.
    pub fn control_file_path(&self, issue_key: &str) -> (r: String)
        ensures
            r@ == self.spec_control_file_path(issue_key@),
    {
        let mut s = self.issue_dir(issue_key);
        s.append("/.jira_control.json");
        s
    }

    /// `{base_dir}/{KEY}/{YYYY-MM-DD}` for the attachment's creation date.
    pub open spec fn spec_date_dir(self, issue_key: Seq<char>, created: Timestamp) -> Seq<char> {
        self.spec_issue_dir(issue_key) + "/"@ + spec_date_string(created)
    }

    /// The date folder an attachment belongs in.
    pub fn date_dir(&self, issue_key: &str, created: &Timestamp) -> (r: String)
        requires
            created.wf(),
        ensures
            r@ == self.spec_date_dir(issue_key@, *created),
    {
        let mut s = self.issue_dir(issue_key);
        s.append("/");
        s.append(date_string(created).as_str());
        s
    }

    /// `{base_dir}/{KEY}/{YYYY-MM-DD}/{filename}`.
    pub open spec fn spec_attachment_path(
        self,
        issue_key: Seq<char>,
        attachment: Attachment,
    ) -> Seq<char> {
        self.spec_date_dir(issue_key, attachment.created) + "/"@ + attachment.filename@
    }

    /// The exact path an attachment is stored under (before any
    /// collision renaming).
    pub fn attachment_path(&self, issue_key: &str, attachment: &Attachment) -> (r: String)
        requires
            attachment.wf(),
        ensures
            r@ == self.spec_attachment_path(issue_key@, *attachment),
    {
        let mut s = self.date_dir(issue_key, &attachment.created);
        s.append("/");
        s.append(attachment.filename.as_str());
        s
    }

    /// Whether the exact path `{base}/{KEY}/{date}/{filename}` is among
    /// the paths that exist on disk, regardless of content: two
    /// same-named, same-dated attachments with different bytes are
    /// indistinguishable here — a known limitation, kept deliberately.
    /// The caller supplies the existing paths.
    pub fn attachment_exists(
        &self,
        issue_key: &str,
        attachment: &Attachment,
        existing_paths: &Vec<String>,
    ) -> (r: bool)
        requires
            attachment.wf(),
        ensures
            r == spec_name_in(existing_paths@, self.spec_attachment_path(issue_key@, *attachment)),
    {
        let target = self.attachment_path(issue_key, attachment);
        name_in(existing_paths, target.as_str())
    }
}

/// `s` occurs in the list.
pub open spec fn spec_name_in(l: Seq<String>, s: Seq<char>) -> bool {
    exists|j: int| 0 <= j < l.len() && #[trigger] l[j]@ == s
}

/// Membership of a string in a list of names.
pub fn name_in(l: &Vec<String>, s: &str) -> (r: bool)
    ensures
        r == spec_name_in(l@, s@),
{
    let n = l.len();
    let mut i: usize = 0;
    while i < n
        invariant
            n == l@.len(),
            i <= n,
            forall|j: int| 0 <= j < i ==> #[trigger] l@[j]@ != s@,
        decreases n - i,
    {
        if str_eq(l[i].as_str(), s) {
            return true;
        }
        i = i + 1;
    }
    false
}


/// Index of the last `'.'` in a filename, or -1 when there is none.
pub open spec fn spec_last_dot(f: Seq<char>) -> int
    decreases f.len(),
{
    if f.len() == 0 {
        -1
    } else if f.last() == '.' {
        f.len() - 1
    } else {
        spec_last_dot(f.drop_last())
    }
}

proof fn lemma_last_dot_range(f: Seq<char>)
    ensures
        -1 <= spec_last_dot(f) < f.len(),
        spec_last_dot(f) >= 0 ==> f[spec_last_dot(f)] == '.',
    decreases f.len(),
{
    if f.len() > 0 && f.last() != '.' {
        lemma_last_dot_range(f.drop_last());
    }
}

proof fn lemma_last_dot_take(f: Seq<char>, i: int)
    requires
        0 <= i <= f.len(),
        forall|j: int| i <= j < f.len() ==> f[j] != '.',
    ensures
        spec_last_dot(f) == spec_last_dot(f.take(i)),
    decreases f.len() - i,
{
    if i < f.len() {
        assert(f.last() != '.');
        assert(f.drop_last() =~= f.take(f.len() - 1));
        assert(f.take(f.len() - 1).take(i) =~= f.take(i));
        lemma_last_dot_take(f.take(f.len() - 1), i);
    } else {
        assert(f.take(i) =~= f);
    }
}

/// The filename before its extension: everything up to the last dot,
/// unless the dot is leading or absent.
pub open spec fn spec_stem(f: Seq<char>) -> Seq<char> {
    let i = spec_last_dot(f);
    if i >= 1 {
        f.take(i)
    } else {
        f
    }
}

/// The extension including its dot, or empty.
pub open spec fn spec_ext(f: Seq<char>) -> Seq<char> {
    let i = spec_last_dot(f);
    if i >= 1 {
        f.skip(i)
    } else {
        Seq::empty()
    }
}

/// The k-th renaming candidate: `stem_k.ext`.
pub open spec fn spec_candidate(f: Seq<char>, k: nat) -> Seq<char> {
    spec_stem(f) + seq!['_'] + crate::text::spec_dec(k) + spec_ext(f)
}

proof fn lemma_candidate_injective(f: Seq<char>, k1: nat, k2: nat)
    requires
        spec_candidate(f, k1) == spec_candidate(f, k2),
    ensures
        k1 == k2,
{
    let st = spec_stem(f);
    let ex = spec_ext(f);
    let d1 = crate::text::spec_dec(k1);
    let d2 = crate::text::spec_dec(k2);
    let c1 = spec_candidate(f, k1);
    let c2 = spec_candidate(f, k2);
    assert(c1.len() == st.len() + 1 + d1.len() + ex.len());
    assert(c2.len() == st.len() + 1 + d2.len() + ex.len());
    assert(d1.len() == d2.len());
    let b = st.len() + 1;
    assert forall|t: int| 0 <= t < d1.len() implies d1[t] == d2[t] by {
        assert(c1[b + t] == d1[t]);
        assert(c2[b + t] == d2[t]);
    }
    assert(d1 =~= d2);
    crate::text::lemma_dec_injective(k1, k2);
}

fn last_dot(s: &str) -> (r: Option<usize>)
    ensures
        match r {
            Some(i) => i as int == spec_last_dot(s@) && i < s@.len(),
            None => spec_last_dot(s@) == -1,
        },
{
    let len = s.unicode_len();
    let mut i: usize = len;
    while i > 0
        invariant
            len == s@.len(),
            i <= len,
            forall|j: int| i <= j < len ==> s@[j] != '.',
        decreases i,
    {
        if s.get_char(i - 1) == '.' {
            proof {
                lemma_last_dot_take(s@, i as int);
                assert(s@.take(i as int).last() == s@[i - 1]);
            }
            return Some(i - 1);
        }
        i = i - 1;
    }
    proof {
        lemma_last_dot_take(s@, 0);
        assert(s@.take(0).len() == 0);
    }
    None
}

fn build_candidate(stem: &str, k: u64, ext: &str) -> (r: String)
    ensures
        r@ == stem@ + seq!['_'] + crate::text::spec_dec(k as nat) + ext@,
{
    proof {
        reveal_strlit("_");
    }
    let mut s = stem.to_owned();
    s.append("_");
    proof {
        assert("_"@ =~= seq!['_']);
    }
    s.append(crate::text::u64_to_dec(k).as_str());
    s.append(ext);
    s
}

/// Picks a name that does not collide with any existing one: the
/// filename itself when free, else `stem_2.ext`, `stem_3.ext`, ... at
/// the first unused counter. The result never names an existing file.
pub fn resolve_conflict(existing: &Vec<String>, filename: &str) -> (r: String)
    requires
        existing@.len() < usize::MAX - 2,
    ensures
        !spec_name_in(existing@, r@),
        !spec_name_in(existing@, filename@) ==> r@ == filename@,
        spec_name_in(existing@, filename@) ==> exists|k: nat|
            {
                &&& 2 <= k
                &&& r@ == spec_candidate(filename@, k)
                &&& forall|j: nat|
                    2 <= j < k ==> spec_name_in(
                        existing@,
                        #[trigger] spec_candidate(filename@, j),
                    )
            },
{
    if !name_in(existing, filename) {
        return filename.to_owned();
    }
    let len = filename.unicode_len();
    let ld = last_dot(filename);
    let (stem_s, ext_s): (String, String) = match ld {
        Some(i) if i >= 1 => {
            (filename.substring_char(0, i).to_owned(), filename.substring_char(i, len).to_owned())
        },
        _ => (filename.to_owned(), String::new()),
    };
    proof {
        assert(stem_s@ == spec_stem(filename@));
        assert(ext_s@ =~= spec_ext(filename@));
    }
    let mut k: u64 = 2;
    loop
        invariant
            stem_s@ == spec_stem(filename@),
            ext_s@ == spec_ext(filename@),
            spec_name_in(existing@, filename@),
            existing@.len() < usize::MAX - 2,
            2 <= k,
            k as int <= existing@.len() + 2,
            forall|j: nat|
                2 <= j < k as nat ==> spec_name_in(existing@, #[trigger] spec_candidate(
                    filename@,
                    j,
                )),
        decreases existing@.len() + 2 - k as int,
    {
        let cand = build_candidate(stem_s.as_str(), k, ext_s.as_str());
        proof {
            assert(cand@ == spec_candidate(filename@, k as nat));
        }
        if !name_in(existing, cand.as_str()) {
            proof {
                let kk = k as nat;
                assert(2 <= kk && cand@ == spec_candidate(filename@, kk) && forall|j: nat|
                    2 <= j < kk ==> spec_name_in(existing@, #[trigger] spec_candidate(
                        filename@,
                        j,
                    )));
            }
            return cand;
        }
        proof {
            lemma_candidate_pigeonhole(existing@, filename@, k as nat);
        }
        k = k + 1;
    }
}

/// If every candidate counter in `[2, k]` names an existing file, there
/// are at least `k - 1` distinct names in the list, so `k` cannot pass
/// the list's length plus one.
proof fn lemma_candidate_pigeonhole(existing: Seq<String>, f: Seq<char>, k: nat)
    requires
        k >= 2,
        forall|j: nat| 2 <= j <= k ==> spec_name_in(existing, #[trigger] spec_candidate(f, j)),
    ensures
        k as int <= existing.len() + 1,
{
    let views = existing.map_values(|s: String| s@);
    let vset = views.to_set();
    let dom = vstd::set_lib::set_int_range(2, k as int + 1);
    let g = |j: int| spec_candidate(f, j as nat);
    vstd::set_lib::lemma_int_range(2, k as int + 1);
    assert(vstd::relations::injective_on(g, dom)) by {
        assert forall|x1: int, x2: int|
            #![trigger dom.contains(x1), dom.contains(x2), g(x1), g(x2)]
            dom.contains(x1) && dom.contains(x2) && g(x1) == g(x2) implies x1 == x2 by {
            lemma_candidate_injective(f, x1 as nat, x2 as nat);
        }
    }
    let img = dom.map(g);
    vstd::set_lib::lemma_map_size(dom, img, g);
    assert forall|y: Seq<char>| #[trigger] img.contains(y) implies vset.contains(y) by {
        let j = choose|j: int| dom.contains(j) && g(j) == y;
        assert(spec_name_in(existing, spec_candidate(f, j as nat)));
        let idx = choose|idx: int|
            0 <= idx < existing.len() && #[trigger] existing[idx]@ == spec_candidate(f, j as nat);
        assert(views[idx] == y);
        assert(views.contains(y));
    }
    broadcast use vstd::seq_lib::seq_to_set_is_finite;

    views.lemma_cardinality_of_set();
    vstd::set_lib::lemma_len_subset(img, vset);
}


/// Hexadecimal digit characters (lowercase).
pub open spec fn spec_hex_char(d: int) -> char {
    if d == 0 {
        '0'
    } else if d == 1 {
        '1'
    } else if d == 2 {
        '2'
    } else if d == 3 {
        '3'
    } else if d == 4 {
        '4'
    } else if d == 5 {
        '5'
    } else if d == 6 {
        '6'
    } else if d == 7 {
        '7'
    } else if d == 8 {
        '8'
    } else if d == 9 {
        '9'
    } else if d == 10 {
        'a'
    } else if d == 11 {
        'b'
    } else if d == 12 {
        'c'
    } else if d == 13 {
        'd'
    } else if d == 14 {
        'e'
    } else {
        'f'
    }
}

fn hex_char_str(d: u32) -> (r: &'static str)
    requires
        d < 16,
    ensures
        r@ =~= seq![spec_hex_char(d as int)],
{
    proof {
        reveal_strlit("0");
        reveal_strlit("1");
        reveal_strlit("2");
        reveal_strlit("3");
        reveal_strlit("4");
        reveal_strlit("5");
        reveal_strlit("6");
        reveal_strlit("7");
        reveal_strlit("8");
        reveal_strlit("9");
        reveal_strlit("a");
        reveal_strlit("b");
        reveal_strlit("c");
        reveal_strlit("d");
        reveal_strlit("e");
        reveal_strlit("f");
    }
    match d {
        0 => "0",
        1 => "1",
        2 => "2",
        3 => "3",
        4 => "4",
        5 => "5",
        6 => "6",
        7 => "7",
        8 => "8",
        9 => "9",
        10 => "a",
        11 => "b",
        12 => "c",
        13 => "d",
        14 => "e",
        _ => "f",
    }
}

/// JSON escaping of one character: quote, backslash and control
/// characters are escaped, everything else passes through.
pub open spec fn spec_escape_char(c: char) -> Seq<char> {
    if c == '"' {
        seq!['\\', '"']
    } else if c == '\\' {
        seq!['\\', '\\']
    } else if c == '\n' {
        seq!['\\', 'n']
    } else if c == '\r' {
        seq!['\\', 'r']
    } else if c == '\t' {
        seq!['\\', 't']
    } else if (c as u32) < 32 {
        seq!['\\', 'u', '0', '0', spec_hex_char((c as u32) as int / 16), spec_hex_char(
            (c as u32) as int % 16,
        )]
    } else {
        seq![c]
    }
}

/// JSON escaping of a whole text.
pub open spec fn spec_escape(s: Seq<char>) -> Seq<char>
    decreases s.len(),
{
    if s.len() == 0 {
        Seq::empty()
    } else {
        spec_escape(s.drop_last()) + spec_escape_char(s.last())
    }
}

/// A JSON string literal for `s`: quoted and escaped.
pub open spec fn spec_json_string(s: Seq<char>) -> Seq<char> {
    seq!['"'] + spec_escape(s) + seq!['"']
}

/// Quotes and escapes a text as a JSON string literal.
pub fn json_quote(s: &str) -> (r: String)
    ensures
        r@ == spec_json_string(s@),
{
    proof {
        reveal_strlit("\"");
        reveal_strlit("\\\"");
        reveal_strlit("\\\\");
        reveal_strlit("\\n");
        reveal_strlit("\\r");
        reveal_strlit("\\t");
        reveal_strlit("\\u00");
    }
    let len = s.unicode_len();
    let mut out = "\"".to_owned();
    proof {
        assert("\""@ =~= seq!['"']);
        assert(s@.take(0).len() == 0);
        assert(out@ =~= seq!['"'] + spec_escape(s@.take(0)));
    }
    let mut i: usize = 0;
    while i < len
        invariant
            len == s@.len(),
            i <= len,
            out@ == seq!['"'] + spec_escape(s@.take(i as int)),
        decreases len - i,
    {
        proof {
            reveal_strlit("\\\"");
            reveal_strlit("\\\\");
            reveal_strlit("\\n");
            reveal_strlit("\\r");
            reveal_strlit("\\t");
            reveal_strlit("\\u00");
        }
        let c = s.get_char(i);
        if c == '"' {
            out.append("\\\"");
            proof {
                assert("\\\""@ =~= spec_escape_char(c));
            }
        } else if c == '\\' {
            out.append("\\\\");
            proof {
                assert("\\\\"@ =~= spec_escape_char(c));
            }
        } else if c == '\n' {
            out.append("\\n");
            proof {
                assert("\\n"@ =~= spec_escape_char(c));
            }
        } else if c == '\r' {
            out.append("\\r");
            proof {
                assert("\\r"@ =~= spec_escape_char(c));
            }
        } else if c == '\t' {
            out.append("\\t");
            proof {
                assert("\\t"@ =~= spec_escape_char(c));
            }
        } else if (c as u32) < 32 {
            out.append("\\u00");
            out.append(hex_char_str((c as u32) / 16));
            out.append(hex_char_str((c as u32) % 16));
            proof {
                assert("\\u00"@ + seq![spec_hex_char((c as u32) as int / 16)] + seq![
                    spec_hex_char((c as u32) as int % 16),
                ] =~= spec_escape_char(c));
            }
        } else {
            let piece = s.substring_char(i, i + 1);
            out.append(piece);
            proof {
                assert(piece@ =~= seq![s@[i as int]]);
                assert(piece@ =~= spec_escape_char(c));
            }
        }
        proof {
            assert(s@.take(i + 1 as int).drop_last() =~= s@.take(i as int));
            assert(s@.take(i + 1 as int).last() == s@[i as int]);
            assert(out@ =~= seq!['"'] + spec_escape(s@.take(i + 1 as int)));
        }
        i = i + 1;
    }
    out.append("\"");
    proof {
        assert(s@.take(len as int) =~= s@);
        assert(out@ =~= spec_json_string(s@));
    }
    out
}

/// `true` or `false`.
pub open spec fn spec_bool_text(b: bool) -> Seq<char> {
    if b {
        "true"@
    } else {
        "false"@
    }
}

/// The control record's serialized form: one JSON object with the five
/// fields, the check time in RFC 3339.
pub open spec fn spec_control_json(c: ControlFile) -> Seq<char> {
    "{\"issue_key\":"@ + spec_json_string(c.issue_key@) + ",\"issue_summary\":"@
        + spec_json_string(c.issue_summary@) + ",\"issue_status\":"@ + spec_json_string(
        c.issue_status@,
    ) + ",\"last_checked\":\""@ + crate::timestamp::spec_rfc3339_string(c.last_checked) + "\",\"marked_for_deletion\":"@
        + spec_bool_text(c.marked_for_deletion) + "}"@
}

/// Serializes a control record.
pub fn control_file_json(c: &ControlFile) -> (r: String)
    requires
        c.wf(),
    ensures
        r@ == spec_control_json(*c),
{
    let mut out = "{\"issue_key\":".to_owned();
    out.append(json_quote(c.issue_key.as_str()).as_str());
    out.append(",\"issue_summary\":");
    out.append(json_quote(c.issue_summary.as_str()).as_str());
    out.append(",\"issue_status\":");
    out.append(json_quote(c.issue_status.as_str()).as_str());
    out.append(",\"last_checked\":\"");
    out.append(crate::timestamp::rfc3339_string(&c.last_checked).as_str());
    out.append("\",\"marked_for_deletion\":");
    if c.marked_for_deletion {
        out.append("true");
    } else {
        out.append("false");
    }
    out.append("}");
    proof {
        assert(out@ =~= spec_control_json(*c));
    }
    out
}

/// The control record read back from a parsed JSON document: all five
/// fields must be present and well-typed, the check time must parse.
pub open spec fn spec_control_from_json(o: Option<crate::json::JsonVal>) -> Option<ControlFile> {
    match o {
        Option::None => None,
        Option::Some(v) => match (
            crate::json::spec_lookup(v, "issue_key"@),
            crate::json::spec_lookup(v, "issue_summary"@),
            crate::json::spec_lookup(v, "issue_status"@),
            crate::json::spec_lookup(v, "last_checked"@),
            crate::json::spec_lookup(v, "marked_for_deletion"@),
        ) {
            (
                Option::Some(crate::json::JsonVal::Str(k)),
                Option::Some(crate::json::JsonVal::Str(sm)),
                Option::Some(crate::json::JsonVal::Str(st)),
                Option::Some(crate::json::JsonVal::Str(lc)),
                Option::Some(crate::json::JsonVal::Bool(m)),
            ) => match crate::timestamp::spec_parse_timestamp(lc@) {
                Option::Some(ts) => Option::Some(
                    ControlFile {
                        issue_key: k,
                        issue_summary: sm,
                        issue_status: st,
                        last_checked: ts,
                        marked_for_deletion: m,
                    },
                ),
                Option::None => None,
            },
            _ => None,
        },
    }
}

/// Reads a control record back from its JSON text.
pub fn parse_control_file(data: &str) -> (r: Option<ControlFile>)
    ensures
        r == spec_control_from_json(crate::json::json_of(data@)),
        r matches Some(c) ==> c.wf(),
{
    let v = match crate::json::parse_json(data) {
        Some(v) => v,
        None => {
            return None;
        },
    };
    let k = match crate::json::lookup(&v, "issue_key") {
        Some(x) => match crate::json::as_str(x) {
            Some(s) => s.clone(),
            None => {
                return None;
            },
        },
        None => {
            return None;
        },
    };
    let sm = match crate::json::lookup(&v, "issue_summary") {
        Some(x) => match crate::json::as_str(x) {
            Some(s) => s.clone(),
            None => {
                return None;
            },
        },
        None => {
            return None;
        },
    };
    let st = match crate::json::lookup(&v, "issue_status") {
        Some(x) => match crate::json::as_str(x) {
            Some(s) => s.clone(),
            None => {
                return None;
            },
        },
        None => {
            return None;
        },
    };
    let lc = match crate::json::lookup(&v, "last_checked") {
        Some(x) => match crate::json::as_str(x) {
            Some(s) => s.clone(),
            None => {
                return None;
            },
        },
        None => {
            return None;
        },
    };
    let m = match crate::json::lookup(&v, "marked_for_deletion") {
        Some(x) => match crate::json::as_bool(x) {
            Some(b) => b,
            None => {
                return None;
            },
        },
        None => {
            return None;
        },
    };
    let ts = match crate::timestamp::parse_timestamp(lc.as_str()) {
        Some(t) => t,
        None => {
            return None;
        },
    };
    Some(
        ControlFile {
            issue_key: k,
            issue_summary: sm,
            issue_status: st,
            last_checked: ts,
            marked_for_deletion: m,
        },
    )
}


/// The incident a scanned directory yields: present exactly when it has
/// a control file whose record parses.
pub open spec fn spec_incident_of(e: ScanEntry) -> Option<IncidentFolder> {
    match e.control_data {
        Option::None => None,
        Option::Some(d) => match spec_control_from_json(crate::json::json_of(d@)) {
            Option::Some(c) => Option::Some(
                IncidentFolder { path: e.path, control: c, folder_size: e.folder_size },
            ),
            Option::None => None,
        },
    }
}

/// The incidents of a directory listing, in listing order.
pub open spec fn spec_incidents(entries: Seq<ScanEntry>) -> Seq<IncidentFolder>
    decreases entries.len(),
{
    if entries.len() == 0 {
        Seq::empty()
    } else {
        let rest = spec_incidents(entries.drop_last());
        match spec_incident_of(entries.last()) {
            Option::Some(f) => rest.push(f),
            Option::None => rest,
        }
    }
}

/// Ascending by issue key.
pub open spec fn spec_sorted_by_key(l: Seq<IncidentFolder>) -> bool {
    forall|i: int, j: int|
        0 <= i < j < l.len() ==> spec_chars_le(
            #[trigger] l[i].control.issue_key@,
            #[trigger] l[j].control.issue_key@,
        )
}

fn key_le(a: &IncidentFolder, b: &IncidentFolder) -> (r: bool)
    ensures
        r == spec_chars_le(a.control.issue_key@, b.control.issue_key@),
{
    crate::text::str_le(a.control.issue_key.as_str(), b.control.issue_key.as_str())
}

impl StorageManager {
    /// Turns a directory listing into the incident list: entries without
    /// a parseable control file are invisible, and the result is sorted
    /// ascending by issue key. The caller lists the base directory's
    /// subdirectories and reads each control file.
    pub fn scan_incidents(&self, entries: &Vec<ScanEntry>) -> (r: Vec<IncidentFolder>)
        ensures
            r@.to_multiset() == spec_incidents(entries@).to_multiset(),
            spec_sorted_by_key(r@),
            forall|i: int| 0 <= i < r@.len() ==> (#[trigger] r@[i]).control.wf(),
    {
        // Collect, in listing order.
        let n = entries.len();
        let mut found: Vec<IncidentFolder> = Vec::new();
        let mut i: usize = 0;
        proof {
            assert(entries@.take(0).len() == 0);
        }
        while i < n
            invariant
                n == entries@.len(),
                i <= n,
                found@ == spec_incidents(entries@.take(i as int)),
                forall|t: int| 0 <= t < found@.len() ==> (#[trigger] found@[t]).control.wf(),
            decreases n - i,
        {
            let e = &entries[i];
            proof {
                assert(entries@.take(i + 1 as int).drop_last() =~= entries@.take(i as int));
                assert(entries@.take(i + 1 as int).last() == entries@[i as int]);
            }
            match &e.control_data {
                Some(d) => {
                    match parse_control_file(d.as_str()) {
                        Some(c) => {
                            let f = IncidentFolder {
                                path: e.path.clone(),
                                control: c,
                                folder_size: e.folder_size,
                            };
                            found.push(f);
                        },
                        None => {},
                    }
                },
                None => {},
            }
            i = i + 1;
        }
        proof {
            assert(entries@.take(n as int) =~= entries@);
        }
        // Selection sort into the result.
        let ghost orig = found@.to_multiset();
        let mut rem = found;
        let mut out: Vec<IncidentFolder> = Vec::new();
        proof {
            broadcast use vstd::seq_lib::group_to_multiset_ensures;

            assert(out@.to_multiset().add(rem@.to_multiset()) =~= orig);
        }
        while rem.len() > 0
            invariant
                out@.to_multiset().add(rem@.to_multiset()) == orig,
                spec_sorted_by_key(out@),
                forall|t: int| 0 <= t < out@.len() ==> (#[trigger] out@[t]).control.wf(),
                forall|t: int| 0 <= t < rem@.len() ==> (#[trigger] rem@[t]).control.wf(),
                forall|a: int, b: int|
                    0 <= a < out@.len() && 0 <= b < rem@.len() ==> spec_chars_le(
                        #[trigger] out@[a].control.issue_key@,
                        #[trigger] rem@[b].control.issue_key@,
                    ),
            decreases rem.len(),
        {
            // Find the least remaining key.
            let mut mi: usize = 0;
            let mut t: usize = 1;
            proof {
                crate::text::lemma_chars_lt_irreflexive(rem@[0].control.issue_key@);
            }
            while t < rem.len()
                invariant
                    rem@.len() > 0,
                    mi < t,
                    t <= rem@.len(),
                    forall|u: int|
                        0 <= u < t ==> spec_chars_le(
                            rem@[mi as int].control.issue_key@,
                            #[trigger] rem@[u].control.issue_key@,
                        ),
                decreases rem.len() - t,
            {
                if !key_le(&rem[mi], &rem[t]) {
                    proof {
                        let kt = rem@[t as int].control.issue_key@;
                        let km = rem@[mi as int].control.issue_key@;
                        assert(crate::text::spec_chars_lt(kt, km));
                        assert forall|u: int|
                            0 <= u < t implies spec_chars_le(
                            kt,
                            #[trigger] rem@[u].control.issue_key@,
                        ) by {
                            let ku = rem@[u].control.issue_key@;
                            if crate::text::spec_chars_lt(ku, kt) {
                                crate::text::lemma_chars_lt_transitive(ku, kt, km);
                            }
                        }
                    }
                    mi = t;
                }
                proof {
                    let km = rem@[mi as int].control.issue_key@;
                    let kt = rem@[t as int].control.issue_key@;
                    crate::text::lemma_chars_lt_irreflexive(km);
                    if crate::text::spec_chars_lt(kt, km) {
                        crate::text::lemma_chars_lt_asymmetric(kt, km);
                    }
                }
                t = t + 1;
            }
            let ghost old_rem = rem@;
            let ghost old_out = out@;
            let x = rem.remove(mi);
            out.push(x);
            proof {
                broadcast use vstd::seq_lib::group_to_multiset_ensures;

                assert(old_rem.remove(mi as int).to_multiset() =~= old_rem.to_multiset().remove(
                    old_rem[mi as int],
                ));
                assert(out@ =~= old_out.push(old_rem[mi as int]));
                assert(out@.to_multiset() =~= old_out.to_multiset().insert(old_rem[mi as int]));
                assert(out@.to_multiset().add(rem@.to_multiset()) =~= orig);
                // The chosen element keeps both orders.
                assert forall|a: int, b: int|
                    0 <= a < out@.len() && 0 <= b < rem@.len() implies spec_chars_le(
                    #[trigger] out@[a].control.issue_key@,
                    #[trigger] rem@[b].control.issue_key@,
                ) by {
                    if a < old_out.len() {
                        assert(out@[a] == old_out[a]);
                        if b < mi {
                            assert(rem@[b] == old_rem[b]);
                        } else {
                            assert(rem@[b] == old_rem[b + 1]);
                        }
                    } else {
                        assert(out@[a] == old_rem[mi as int]);
                        if b < mi {
                            assert(rem@[b] == old_rem[b]);
                        } else {
                            assert(rem@[b] == old_rem[b + 1]);
                        }
                    }
                }
                assert(spec_sorted_by_key(out@));
            }
        }
        out
    }
}


/// A folder name of the strict `YYYY-MM-DD` shape.
pub open spec fn spec_date_shaped(n: Seq<char>) -> bool {
    &&& n.len() == 10
    &&& crate::timestamp::spec_all_digits(n, 0, 4)
    &&& n[4] == '-'
    &&& crate::timestamp::spec_all_digits(n, 5, 7)
    &&& n[7] == '-'
    &&& crate::timestamp::spec_all_digits(n, 8, 10)
}

fn date_shaped(n: &str) -> (r: bool)
    ensures
        r == spec_date_shaped(n@),
{
    let len = n.unicode_len();
    len == 10 && crate::timestamp::all_digits(n, 0, 4) && n.get_char(4) == '-'
        && crate::timestamp::all_digits(n, 5, 7) && n.get_char(7) == '-'
        && crate::timestamp::all_digits(n, 8, 10)
}

impl StorageManager {
    /// Among the issue folder's subdirectory names, the path of the
    /// lexicographically greatest `YYYY-MM-DD`-shaped one — the most
    /// recent, since the shape is zero-padded — or the issue folder
    /// itself when none is shaped. The caller lists the subdirectories.
    pub fn latest_date_folder(&self, issue_key: &str, names: &Vec<String>) -> (r: String)
        ensures
            (forall|j: int| 0 <= j < names@.len() ==> !spec_date_shaped(#[trigger] names@[j]@))
                ==> r@ == self.spec_issue_dir(issue_key@),
            (exists|j: int| 0 <= j < names@.len() && spec_date_shaped(#[trigger] names@[j]@))
                ==> exists|j: int|
                {
                    &&& 0 <= j < names@.len()
                    &&& spec_date_shaped(#[trigger] names@[j]@)
                    &&& r@ == self.spec_issue_dir(issue_key@) + "/"@ + names@[j]@
                    &&& forall|u: int|
                        0 <= u < names@.len() && spec_date_shaped(#[trigger] names@[u]@)
                            ==> spec_chars_le(names@[u]@, names@[j]@)
                },
    {
        let n = names.len();
        let mut best: usize = n;  // n means: none found yet
        let mut i: usize = 0;
        while i < n
            invariant
                n == names@.len(),
                i <= n,
                best <= n,
                best == n ==> forall|j: int|
                    0 <= j < i ==> !spec_date_shaped(#[trigger] names@[j]@),
                best < n ==> {
                    &&& spec_date_shaped(names@[best as int]@)
                    &&& forall|u: int|
                        0 <= u < i && spec_date_shaped(#[trigger] names@[u]@) ==> spec_chars_le(
                            names@[u]@,
                            names@[best as int]@,
                        )
                },
            decreases n - i,
        {
            if date_shaped(names[i].as_str()) {
                if best == n {
                    proof {
                        crate::text::lemma_chars_lt_irreflexive(names@[i as int]@);
                    }
                    best = i;
                } else {
                    if !crate::text::str_le(names[i].as_str(), names[best].as_str()) {
                        proof {
                            let ki = names@[i as int]@;
                            let kb = names@[best as int]@;
                            assert(crate::text::spec_chars_lt(kb, ki));
                            crate::text::lemma_chars_lt_irreflexive(ki);
                            assert forall|u: int|
                                0 <= u < i && spec_date_shaped(#[trigger] names@[u]@)
                                    implies spec_chars_le(names@[u]@, ki) by {
                                let ku = names@[u]@;
                                if crate::text::spec_chars_lt(ki, ku) {
                                    crate::text::lemma_chars_lt_transitive(kb, ki, ku);
                                    crate::text::lemma_chars_lt_asymmetric(kb, ku);
                                }
                            }
                        }
                        best = i;
                    } else {
                        proof {
                            let ki = names@[i as int]@;
                            let kb = names@[best as int]@;
                            assert(spec_chars_le(ki, kb));
                        }
                    }
                }
            }
            i = i + 1;
        }
        if best == n {
            self.issue_dir(issue_key)
        } else {
            let mut s = self.issue_dir(issue_key);
            s.append("/");
            s.append(names[best].as_str());
            s
        }
    }
}

/// An incident is up for deletion when its record is marked or its
/// recorded status is classified closed.
pub open spec fn spec_marked(f: IncidentFolder) -> bool {
    f.control.marked_for_deletion || spec_closed_status(lower_of(f.control.issue_status@))
}

/// The issue keys of the incidents up for deletion, in order.
pub open spec fn spec_marked_keys(l: Seq<IncidentFolder>) -> Seq<String>
    decreases l.len(),
{
    if l.len() == 0 {
        Seq::empty()
    } else {
        let rest = spec_marked_keys(l.drop_last());
        if spec_marked(l.last()) {
            rest.push(l.last().control.issue_key)
        } else {
            rest
        }
    }
}

/// Selects the incidents whose folders a bulk delete removes.
pub fn keys_marked_for_deletion(incidents: &Vec<IncidentFolder>) -> (r: Vec<String>)
    ensures
        r@ == spec_marked_keys(incidents@),
{
    let n = incidents.len();
    let mut r: Vec<String> = Vec::new();
    let mut i: usize = 0;
    proof {
        assert(incidents@.take(0).len() == 0);
    }
    while i < n
        invariant
            n == incidents@.len(),
            i <= n,
            r@ == spec_marked_keys(incidents@.take(i as int)),
        decreases n - i,
    {
        let f = &incidents[i];
        proof {
            assert(incidents@.take(i + 1 as int).drop_last() =~= incidents@.take(i as int));
            assert(incidents@.take(i + 1 as int).last() == incidents@[i as int]);
        }
        if f.control.marked_for_deletion || f.control.is_closed() {
            r.push(f.control.issue_key.clone());
        }
        i = i + 1;
    }
    proof {
        assert(incidents@.take(n as int) =~= incidents@);
    }
    r
}

} // verus!
