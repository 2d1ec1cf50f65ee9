use vstd::prelude::*;

use crate::error::{ErrorView, UploadError};
use crate::file_data::{FileData, FileDataPermission};
use crate::text::{
    find_char, lemma_u64_string_injective, lemma_u64_string_props, parse_u64, spec_is_digit,
    spec_parse_u64, spec_starts_with, spec_u64_string, str_eq, str_starts_with, u64_to_string,
};

verus! {

/// The permission value's text: the stored word in quotes, or null.
pub open spec fn spec_perm_json(p: Option<FileDataPermission>) -> Seq<char> {
    match p {
        None => "null"@,
        Some(FileDataPermission::Denied) => "\"none\""@,
        Some(FileDataPermission::Unlimited) => "\"unlimited\""@,
    }
}

/// The expiry value's text: the decimal timestamp, or null.
pub open spec fn spec_ttl_json(t: Option<u64>) -> Seq<char> {
    match t {
        None => "null"@,
        Some(n) => spec_u64_string(n as nat),
    }
}

/// The permission field of the record's text.
pub open spec fn spec_dp_field(p: Option<FileDataPermission>) -> Seq<char> {
    "\"download_permission\":"@ + spec_perm_json(p)
}

/// The expiry field of the record's text.
pub open spec fn spec_ttl_field(t: Option<u64>) -> Seq<char> {
    "\"ttl\":"@ + spec_ttl_json(t)
}

/// The record's written text: one compact JSON object with both fields, in
/// declaration order.
pub open spec fn spec_record_json(record: FileData) -> Seq<char> {
    "{"@ + (spec_dp_field(record.download_permission) + ","@ + spec_ttl_field(record.ttl)) + "}"@
}

/// The object bodies that mean `record`: both fields in either order, or a
/// single field, or none — an absent field means "no override".
pub open spec fn spec_body_accepts(body: Seq<char>, record: FileData) -> bool {
    ||| body == spec_dp_field(record.download_permission) + ","@ + spec_ttl_field(record.ttl)
    ||| body == spec_ttl_field(record.ttl) + ","@ + spec_dp_field(record.download_permission)
    ||| (record.download_permission is None && body == spec_ttl_field(record.ttl))
    ||| (record.ttl is None && body == spec_dp_field(record.download_permission))
    ||| (record.download_permission is None && record.ttl is None && body
        == Seq::<char>::empty())
}

/// The texts the reader accepts for `record`: a compact brace-wrapped object
/// whose fields are the two known ones, each optional, in either order.
pub open spec fn spec_record_accepts(s: Seq<char>, record: FileData) -> bool {
    &&& s.len() >= 2
    &&& s[0] == '{'
    &&& s[s.len() - 1] == '}'
    &&& spec_body_accepts(s.subrange(1, s.len() - 1), record)
}

proof fn reveal_record_literals()
    ensures
        "\"download_permission\":"@.len() == 22,
        "\"download_permission\":"@[0] == '"',
        "\"download_permission\":"@[1] == 'd',
        "\"ttl\":"@.len() == 6,
        "\"ttl\":"@[0] == '"',
        "\"ttl\":"@[1] == 't',
        ",\"ttl\":"@ == ","@ + "\"ttl\":"@,
        "null"@.len() == 4,
        "null"@[0] == 'n',
        "\"none\""@.len() == 6,
        "\"none\""@[0] == '"',
        "\"none\""@[1] == 'n',
        "\"unlimited\""@.len() == 11,
        "\"unlimited\""@[0] == '"',
        "\"unlimited\""@[1] == 'u',
        "{"@.len() == 1,
        "{"@[0] == '{',
        "}"@.len() == 1,
        "}"@[0] == '}',
        ","@.len() == 1,
        ","@[0] == ',',
        forall|i: int| 0 <= i < 4 ==> "null"@[i] != ',',
{
    reveal_strlit("\"download_permission\":");
    reveal_strlit("\"ttl\":");
    reveal_strlit(",\"ttl\":");
    reveal_strlit("null");
    reveal_strlit("\"none\"");
    reveal_strlit("\"unlimited\"");
    reveal_strlit("{");
    reveal_strlit("}");
    reveal_strlit(",");
    assert(",\"ttl\":"@ =~= ","@ + "\"ttl\":"@);
}

/// No expiry value holds a comma, so a comma always ends the field.
proof fn lemma_ttl_json_no_comma(t: Option<u64>)
    ensures
        forall|i: int| 0 <= i < spec_ttl_json(t).len() ==> spec_ttl_json(t)[i] != ',',
{
    reveal_record_literals();
    match t {
        None => {}
        Some(n) => {
            lemma_u64_string_props(n as nat);
            assert forall|i: int|
                0 <= i < spec_ttl_json(t).len() implies spec_ttl_json(t)[i] != ',' by {
                assert(spec_is_digit(spec_u64_string(n as nat)[i]));
            }
        }
    }
}

/// Two permission values that both start the same text are the same value:
/// the three encodings differ within their first two characters.
proof fn lemma_perm_prefix_unique(
    t: Seq<char>,
    p: Option<FileDataPermission>,
    q: Option<FileDataPermission>,
)
    requires
        spec_starts_with(t, spec_perm_json(p)),
        spec_starts_with(t, spec_perm_json(q)),
    ensures
        p == q,
{
    reveal_record_literals();
    assert(t.take(spec_perm_json(p).len() as int)[0] == t[0]);
    assert(t.take(spec_perm_json(p).len() as int)[1] == t[1]);
    assert(t.take(spec_perm_json(q).len() as int)[0] == t[0]);
    assert(t.take(spec_perm_json(q).len() as int)[1] == t[1]);
    assert(t[0] == spec_perm_json(p)[0] && t[1] == spec_perm_json(p)[1]);
    assert(t[0] == spec_perm_json(q)[0] && t[1] == spec_perm_json(q)[1]);
    match (p, q) {
        (None, None) => {}
        (Some(FileDataPermission::Denied), Some(FileDataPermission::Denied)) => {}
        (Some(FileDataPermission::Unlimited), Some(FileDataPermission::Unlimited)) => {}
        (None, Some(_)) => {
            assert(spec_perm_json(p)[0] == 'n' && spec_perm_json(q)[0] == '"');
        }
        (Some(_), None) => {
            assert(spec_perm_json(p)[0] == '"' && spec_perm_json(q)[0] == 'n');
        }
        (Some(FileDataPermission::Denied), Some(FileDataPermission::Unlimited)) => {
            assert(spec_perm_json(p)[1] == 'n' && spec_perm_json(q)[1] == 'u');
        }
        (Some(FileDataPermission::Unlimited), Some(FileDataPermission::Denied)) => {
            assert(spec_perm_json(p)[1] == 'u' && spec_perm_json(q)[1] == 'n');
        }
    }
}

/// Two expiry values with the same text are the same value.
proof fn lemma_ttl_json_unique(x: Option<u64>, y: Option<u64>)
    requires
        spec_ttl_json(x) == spec_ttl_json(y),
    ensures
        x == y,
{
    reveal_record_literals();
    match (x, y) {
        (None, None) => {}
        (Some(n), Some(m)) => {
            lemma_u64_string_injective(n as nat, m as nat);
        }
        (None, Some(m)) => {
            lemma_u64_string_props(m as nat);
            assert(spec_is_digit(spec_ttl_json(y)[0]));
            assert(spec_ttl_json(x)[0] == 'n');
        }
        (Some(n), None) => {
            lemma_u64_string_props(n as nat);
            assert(spec_is_digit(spec_ttl_json(x)[0]));
            assert(spec_ttl_json(y)[0] == 'n');
        }
    }
}

/// The written text is accepted, and accepted for no other record: writing a
/// record and reading the text back yields the record again.
pub proof fn lemma_record_round_trip(a: FileData, b: FileData)
    ensures
        spec_record_accepts(spec_record_json(a), a),
        spec_record_accepts(spec_record_json(a), b) ==> a == b,
{
    reveal_record_literals();
    let s = spec_record_json(a);
    let body_a = spec_dp_field(a.download_permission) + ","@ + spec_ttl_field(a.ttl);
    assert(s[0] == '{' && s[s.len() - 1] == '}');
    assert(s.subrange(1, s.len() - 1) =~= body_a);
    assert(spec_record_accepts(s, a));
    if spec_record_accepts(s, b) {
        let body = s.subrange(1, s.len() - 1);
        assert(body == body_a);
        assert(body[0] == '"' && body[1] == 'd');
        let dpf_a = spec_dp_field(a.download_permission);
        let ttlf_a = spec_ttl_field(a.ttl);
        if body == spec_ttl_field(b.ttl) + ","@ + spec_dp_field(b.download_permission) {
            assert(body[1] == 't');
        } else if b.download_permission is None && body == spec_ttl_field(b.ttl) {
            assert(body[1] == 't');
        } else if b.download_permission is None && b.ttl is None && body
            == Seq::<char>::empty() {
            assert(body.len() == 0);
        } else if b.ttl is None && body == spec_dp_field(b.download_permission) {
            // same permission by prefix uniqueness, but the lengths differ
            let dpf_b = spec_dp_field(b.download_permission);
            assert(spec_starts_with(body, dpf_a)) by {
                assert(body.take(dpf_a.len() as int) =~= dpf_a);
            }
            assert(spec_starts_with(body, dpf_b)) by {
                assert(body.take(dpf_b.len() as int) =~= dpf_b);
            }
            lemma_dp_field_prefix_unique(body, a.download_permission, b.download_permission);
            assert(body.len() == dpf_a.len() + 1 + ttlf_a.len());
            assert(ttlf_a.len() >= 6);
        } else {
            // both fields, written order: the fields agree one by one
            assert(body == spec_dp_field(b.download_permission) + ","@ + spec_ttl_field(b.ttl));
            let dpf_b = spec_dp_field(b.download_permission);
            let ttlf_b = spec_ttl_field(b.ttl);
            assert(spec_starts_with(body, dpf_a)) by {
                assert(body.take(dpf_a.len() as int) =~= dpf_a);
            }
            assert(spec_starts_with(body, dpf_b)) by {
                assert(body.take(dpf_b.len() as int) =~= dpf_b);
            }
            lemma_dp_field_prefix_unique(body, a.download_permission, b.download_permission);
            assert(dpf_a.len() == dpf_b.len());
            assert(spec_ttl_json(a.ttl) =~= spec_ttl_json(b.ttl)) by {
                assert(body.len() == dpf_a.len() + 1 + ttlf_a.len());
                assert(body.len() == dpf_b.len() + 1 + ttlf_b.len());
                assert forall|i: int|
                    0 <= i < spec_ttl_json(a.ttl).len() implies spec_ttl_json(a.ttl)[i]
                    == spec_ttl_json(b.ttl)[i] by {
                    assert(spec_ttl_json(a.ttl)[i] == body[dpf_a.len() + 7 + i]);
                    assert(spec_ttl_json(b.ttl)[i] == body[dpf_b.len() + 7 + i]);
                }
            }
            lemma_ttl_json_unique(a.ttl, b.ttl);
        }
    }
}

/// Two permission fields that both start the same text carry the same value.
proof fn lemma_dp_field_prefix_unique(
    t: Seq<char>,
    p: Option<FileDataPermission>,
    q: Option<FileDataPermission>,
)
    requires
        spec_starts_with(t, spec_dp_field(p)),
        spec_starts_with(t, spec_dp_field(q)),
    ensures
        p == q,
{
    reveal_record_literals();
    let rest = t.skip(22);
    assert(spec_starts_with(rest, spec_perm_json(p))) by {
        assert(rest.take(spec_perm_json(p).len() as int) =~= spec_perm_json(p)) by {
            assert(forall|i: int|
                0 <= i < spec_dp_field(p).len() ==> t.take(spec_dp_field(p).len() as int)[i]
                    == t[i]);
        }
    }
    assert(spec_starts_with(rest, spec_perm_json(q))) by {
        assert(rest.take(spec_perm_json(q).len() as int) =~= spec_perm_json(q)) by {
            assert(forall|i: int|
                0 <= i < spec_dp_field(q).len() ==> t.take(spec_dp_field(q).len() as int)[i]
                    == t[i]);
        }
    }
    lemma_perm_prefix_unique(rest, p, q);
}

/// What a non-empty accepted body looks like, split by which field comes
/// first: the two keys differ in their second character, so the start of the
/// body decides the order.
proof fn lemma_body_cases(body: Seq<char>, record: FileData)
    requires
        spec_body_accepts(body, record),
        body.len() > 0,
    ensures
        spec_starts_with(body, "\"download_permission\":"@) || spec_starts_with(
            body,
            "\"ttl\":"@,
        ),
        spec_starts_with(body, "\"download_permission\":"@) ==> {
            ||| body == spec_dp_field(record.download_permission) + ","@ + spec_ttl_field(
                record.ttl,
            )
            ||| (record.ttl is None && body == spec_dp_field(record.download_permission))
        },
        spec_starts_with(body, "\"ttl\":"@) ==> {
            ||| body == spec_ttl_field(record.ttl) + ","@ + spec_dp_field(
                record.download_permission,
            )
            ||| (record.download_permission is None && body == spec_ttl_field(record.ttl))
        },
{
    reveal_record_literals();
    let dpf = spec_dp_field(record.download_permission);
    let ttlf = spec_ttl_field(record.ttl);
    if body == dpf + ","@ + ttlf {
        assert(body.take(22) =~= "\"download_permission\":"@);
        assert(body[1] == 'd');
        if spec_starts_with(body, "\"ttl\":"@) {
            assert(body.take(6)[1] == body[1]);
        }
    } else if body == ttlf + ","@ + dpf {
        assert(body.take(6) =~= "\"ttl\":"@);
        assert(body[1] == 't');
        if spec_starts_with(body, "\"download_permission\":"@) {
            assert(body.take(22)[1] == body[1]);
        }
    } else if record.download_permission is None && body == ttlf {
        assert(body.take(6) =~= "\"ttl\":"@);
        assert(body[1] == 't');
        if spec_starts_with(body, "\"download_permission\":"@) {
            assert(body.take(22)[1] == body[1]);
        }
    } else {
        assert(record.ttl is None && body == dpf);
        assert(body.take(22) =~= "\"download_permission\":"@);
        assert(body[1] == 'd');
        if spec_starts_with(body, "\"ttl\":"@) {
            assert(body.take(6)[1] == body[1]);
        }
    }
}

/// When the permission field comes first, the body decomposes around it.
proof fn lemma_dp_first_shape(
    body: Seq<char>,
    record: FileData,
    dp0: Option<FileDataPermission>,
    l: int,
)
    requires
        spec_body_accepts(body, record),
        body.len() > 0,
        spec_starts_with(body, "\"download_permission\":"@),
        spec_starts_with(body.skip(22), spec_perm_json(dp0)),
        l == spec_perm_json(dp0).len(),
    ensures
        dp0 == record.download_permission,
        body.skip(22 + l) == ","@ + spec_ttl_field(record.ttl) || (record.ttl is None
            && body.len() == 22 + l),
{
    reveal_record_literals();
    lemma_body_cases(body, record);
    let dpf = spec_dp_field(record.download_permission);
    let perm = spec_perm_json(record.download_permission);
    if body == dpf + ","@ + spec_ttl_field(record.ttl) {
        assert(spec_starts_with(body.skip(22), perm)) by {
            assert(body.skip(22).take(perm.len() as int) =~= perm);
        }
        lemma_perm_prefix_unique(body.skip(22), dp0, record.download_permission);
        assert(body.skip(22 + l) =~= ","@ + spec_ttl_field(record.ttl));
    } else {
        assert(record.ttl is None && body == dpf);
        assert(spec_starts_with(body.skip(22), perm)) by {
            assert(body.skip(22).take(perm.len() as int) =~= perm);
        }
        lemma_perm_prefix_unique(body.skip(22), dp0, record.download_permission);
        assert(body.len() == 22 + l);
    }
}

/// When the expiry field comes first, the body decomposes around it.
proof fn lemma_ttl_first_shape(body: Seq<char>, record: FileData)
    requires
        spec_body_accepts(body, record),
        body.len() > 0,
        spec_starts_with(body, "\"ttl\":"@),
    ensures
        body.skip(6) == spec_ttl_json(record.ttl) + ","@ + spec_dp_field(
            record.download_permission,
        ) || (record.download_permission is None && body.skip(6) == spec_ttl_json(record.ttl)),
{
    reveal_record_literals();
    lemma_body_cases(body, record);
    if body == spec_ttl_field(record.ttl) + ","@ + spec_dp_field(record.download_permission) {
        assert(body.skip(6) =~= spec_ttl_json(record.ttl) + ","@ + spec_dp_field(
            record.download_permission,
        ));
    } else {
        assert(record.download_permission is None && body == spec_ttl_field(record.ttl));
        assert(body.skip(6) =~= spec_ttl_json(record.ttl));
    }
}

/// When the expiry field comes first and the body holds a comma, the first
/// comma sits exactly after the expiry value, and the permission field fills
/// the remainder.
proof fn lemma_ttl_first_comma(body: Seq<char>, record: FileData, ci: int)
    requires
        spec_body_accepts(body, record),
        body.len() > 0,
        spec_starts_with(body, "\"ttl\":"@),
        0 <= ci < body.skip(6).len(),
        body.skip(6)[ci] == ',',
        forall|j: int| 0 <= j < ci ==> body.skip(6)[j] != ',',
    ensures
        body.skip(6) == spec_ttl_json(record.ttl) + ","@ + spec_dp_field(
            record.download_permission,
        ),
        ci == spec_ttl_json(record.ttl).len(),
{
    reveal_record_literals();
    lemma_ttl_first_shape(body, record);
    lemma_ttl_json_no_comma(record.ttl);
    let tail = body.skip(6);
    let tj = spec_ttl_json(record.ttl);
    if tail == tj + ","@ + spec_dp_field(record.download_permission) {
        if ci < tj.len() {
            assert(tail[ci] == tj[ci]);
            assert(false);
        }
        if ci > tj.len() {
            assert(tail[tj.len() as int] == ',');
            assert(false);
        }
    } else {
        assert(record.download_permission is None && tail == tj);
        assert(tail[ci] != ',');
        assert(false);
    }
}

/// The permission value starting `t`: which of the three encodings, with its
/// length; or the knowledge that none of them starts `t`.
fn match_perm_value(t: &str) -> (r: Option<(Option<FileDataPermission>, usize)>)
    ensures
        match r {
            Some(found) => spec_starts_with(t@, spec_perm_json(found.0)) && found.1
                == spec_perm_json(found.0).len(),
            None => forall|p: Option<FileDataPermission>|
                !spec_starts_with(t@, #[trigger] spec_perm_json(p)),
        },
{
    proof {
        reveal_record_literals();
    }
    if str_starts_with(t, "null") {
        Some((None, 4))
    } else if str_starts_with(t, "\"none\"") {
        Some((Some(FileDataPermission::Denied), 6))
    } else if str_starts_with(t, "\"unlimited\"") {
        Some((Some(FileDataPermission::Unlimited), 11))
    } else {
        proof {
            assert forall|p: Option<FileDataPermission>|
                !spec_starts_with(t@, #[trigger] spec_perm_json(p)) by {
                match p {
                    None => {}
                    Some(FileDataPermission::Denied) => {}
                    Some(FileDataPermission::Unlimited) => {}
                }
            }
        }
        None
    }
}

/// A complete expiry value: null, or the canonical decimal of a timestamp.
fn parse_ttl_value(t: &str) -> (r: Option<Option<u64>>)
    ensures
        match r {
            Some(ttl) => t@ == spec_ttl_json(ttl),
            None => forall|ttl: Option<u64>| t@ != spec_ttl_json(ttl),
        },
{
    proof {
        reveal_record_literals();
    }
    if str_eq(t, "null") {
        return Some(None);
    }
    match parse_u64(t) {
        Some(n) => {
            let rendered = u64_to_string(n);
            if str_eq(t, rendered.as_str()) {
                Some(Some(n))
            } else {
                proof {
                    assert forall|ttl: Option<u64>| t@ != spec_ttl_json(ttl) by {
                        if t@ == spec_ttl_json(ttl) {
                            match ttl {
                                None => {}
                                Some(m) => {
                                    lemma_u64_string_props(m as nat);
                                    assert(spec_parse_u64(t@) == Some(m));
                                    assert(n == m);
                                }
                            }
                        }
                    }
                }
                None
            }
        }
        None => {
            proof {
                assert forall|ttl: Option<u64>| t@ != spec_ttl_json(ttl) by {
                    if t@ == spec_ttl_json(ttl) {
                        match ttl {
                            None => {}
                            Some(m) => {
                                lemma_u64_string_props(m as nat);
                                assert(spec_parse_u64(t@) == Some(m));
                            }
                        }
                    }
                }
            }
            None
        }
    }
}

impl FileData {
    /// The record's written text.
    pub fn to_record_string(&self) -> (r: String)
        ensures
            r@ == spec_record_json(*self),
    {
        let mut r = String::from_str("{");
        r.append("\"download_permission\":");
        match self.download_permission {
            None => r.append("null"),
            Some(FileDataPermission::Denied) => r.append("\"none\""),
            Some(FileDataPermission::Unlimited) => r.append("\"unlimited\""),
        }
        r.append(",");
        r.append("\"ttl\":");
        match self.ttl {
            None => r.append("null"),
            Some(n) => {
                let digits = u64_to_string(n);
                r.append(digits.as_str());
            }
        }
        r.append("}");
        proof {
            assert(r@ =~= spec_record_json(*self));
        }
        r
    }

    /// Parse a persisted record. Accepted are exactly the compact forms of
    /// the documented format — the two known fields, each optional, in either
    /// order; anything else is a fault of the storage, reported without
    /// detail.
    #[verifier::rlimit(60)]
    pub fn parse_record(s: &str) -> (r: Result<FileData, UploadError>)
        ensures
            match r {
                Ok(record) => spec_record_accepts(s@, record),
                Err(e) => e@ == ErrorView::InternalServerError && (forall|record: FileData|
                    !spec_record_accepts(s@, record)),
            },
    {
        proof {
            reveal_record_literals();
        }
        let len = s.unicode_len();
        if len < 2 {
            return Err(UploadError::InternalServerError);
        }
        if s.get_char(0) != '{' || s.get_char(len - 1) != '}' {
            return Err(UploadError::InternalServerError);
        }
        let body = s.substring_char(1, len - 1);
        let body_len = body.unicode_len();
        proof {
            assert(body@ == s@.subrange(1, s@.len() - 1));
        }
        if body_len == 0 {
            let record = FileData { download_permission: None, ttl: None };
            proof {
                assert(body@ =~= Seq::<char>::empty());
            }
            return Ok(record);
        }
        if str_starts_with(body, "\"download_permission\":") {
            // the permission field comes first
            let after_key = body.substring_char(22, body_len);
            let parsed = match match_perm_value(after_key) {
                Some(found) => found,
                None => {
                    proof {
                        assert forall|record: FileData| !spec_record_accepts(s@, record) by {
                            if spec_record_accepts(s@, record) {
                                lemma_body_cases(body@, record);
                                let perm = spec_perm_json(record.download_permission);
                                assert(spec_starts_with(after_key@, perm)) by {
                                    assert(after_key@ =~= body@.skip(22));
                                    if body@ == spec_dp_field(record.download_permission) + ","@
                                        + spec_ttl_field(record.ttl) {
                                        assert(body@.skip(22).take(perm.len() as int) =~= perm);
                                    } else {
                                        assert(record.ttl is None && body@ == spec_dp_field(
                                            record.download_permission,
                                        ));
                                        assert(body@.skip(22).take(perm.len() as int) =~= perm);
                                    }
                                }
                            }
                        }
                    }
                    return Err(UploadError::InternalServerError);
                }
            };
            let download_permission = parsed.0;
            let value_len = parsed.1;
            let rest = after_key.substring_char(value_len, body_len - 22);
            if rest.unicode_len() == 0 {
                // the object holds only the permission field
                let record = FileData { download_permission, ttl: None };
                proof {
                    assert(body@ =~= spec_dp_field(download_permission));
                }
                return Ok(record);
            }
            proof {
                assert(after_key@ =~= body@.skip(22));
                assert(rest@ =~= body@.skip(22 + value_len as int));
            }
            if !str_starts_with(rest, ",\"ttl\":") {
                proof {
                    assert forall|record: FileData| !spec_record_accepts(s@, record) by {
                        if spec_record_accepts(s@, record) {
                            lemma_dp_first_shape(
                                body@,
                                record,
                                download_permission,
                                value_len as int,
                            );
                            if body@.skip(22 + value_len as int) == ","@ + spec_ttl_field(
                                record.ttl,
                            ) {
                                assert(spec_starts_with(rest@, ",\"ttl\":"@)) by {
                                    assert(rest@.take(7) =~= ",\"ttl\":"@);
                                }
                            }
                        }
                    }
                }
                return Err(UploadError::InternalServerError);
            }
            let ttl_text = rest.substring_char(7, body_len - 22 - value_len);
            match parse_ttl_value(ttl_text) {
                Some(ttl) => {
                    let record = FileData { download_permission, ttl };
                    proof {
                        assert(body@ =~= body@.take(22) + after_key@);
                        assert(after_key@ =~= after_key@.take(value_len as int) + rest@);
                        assert(rest@ =~= rest@.take(7) + ttl_text@);
                        assert(body@ =~= spec_dp_field(download_permission) + ","@
                            + spec_ttl_field(ttl));
                    }
                    Ok(record)
                }
                None => {
                    proof {
                        assert forall|record: FileData| !spec_record_accepts(s@, record) by {
                            if spec_record_accepts(s@, record) {
                                lemma_dp_first_shape(
                                    body@,
                                    record,
                                    download_permission,
                                    value_len as int,
                                );
                                assert(body@.skip(22 + value_len as int) == ","@ + spec_ttl_field(
                                    record.ttl,
                                ));
                                assert(ttl_text@ =~= spec_ttl_json(record.ttl));
                            }
                        }
                    }
                    Err(UploadError::InternalServerError)
                }
            }
        } else if str_starts_with(body, "\"ttl\":") {
            // the expiry field comes first
            let tail = body.substring_char(6, body_len);
            proof {
                assert(tail@ =~= body@.skip(6));
            }
            match find_char(tail, ',') {
                None => {
                    match parse_ttl_value(tail) {
                        Some(ttl) => {
                            let record = FileData { download_permission: None, ttl };
                            proof {
                                assert(body@ =~= spec_ttl_field(ttl));
                            }
                            Ok(record)
                        }
                        None => {
                            proof {
                                assert forall|record: FileData| !spec_record_accepts(
                                    s@,
                                    record,
                                ) by {
                                    if spec_record_accepts(s@, record) {
                                        lemma_ttl_first_shape(body@, record);
                                        let tj = spec_ttl_json(record.ttl);
                                        if tail@ == tj + ","@ + spec_dp_field(
                                            record.download_permission,
                                        ) {
                                            assert(tail@[tj.len() as int] == ',');
                                        }
                                    }
                                }
                            }
                            Err(UploadError::InternalServerError)
                        }
                    }
                }
                Some(comma) => {
                    let ttl_text = tail.substring_char(0, comma);
                    proof {
                        assert(ttl_text@ =~= tail@.take(comma as int));
                    }
                    let ttl = match parse_ttl_value(ttl_text) {
                        Some(ttl) => ttl,
                        None => {
                            proof {
                                assert forall|record: FileData| !spec_record_accepts(
                                    s@,
                                    record,
                                ) by {
                                    if spec_record_accepts(s@, record) {
                                        lemma_ttl_first_comma(body@, record, comma as int);
                                        assert(ttl_text@ =~= spec_ttl_json(record.ttl));
                                    }
                                }
                            }
                            return Err(UploadError::InternalServerError);
                        }
                    };
                    let after_comma = tail.substring_char(comma + 1, body_len - 6);
                    proof {
                        assert(after_comma@ =~= tail@.skip(comma as int + 1));
                    }
                    if !str_starts_with(after_comma, "\"download_permission\":") {
                        proof {
                            assert forall|record: FileData| !spec_record_accepts(s@, record) by {
                                if spec_record_accepts(s@, record) {
                                    lemma_ttl_first_comma(body@, record, comma as int);
                                    assert(after_comma@ =~= spec_dp_field(
                                        record.download_permission,
                                    ));
                                    assert(spec_starts_with(
                                        after_comma@,
                                        "\"download_permission\":"@,
                                    )) by {
                                        assert(after_comma@.take(22)
                                            =~= "\"download_permission\":"@);
                                    }
                                }
                            }
                        }
                        return Err(UploadError::InternalServerError);
                    }
                    let perm_text = after_comma.substring_char(22, body_len - 6 - comma - 1);
                    proof {
                        assert(perm_text@ =~= after_comma@.skip(22));
                    }
                    let parsed = match match_perm_value(perm_text) {
                        Some(found) => found,
                        None => {
                            proof {
                                assert forall|record: FileData| !spec_record_accepts(
                                    s@,
                                    record,
                                ) by {
                                    if spec_record_accepts(s@, record) {
                                        lemma_ttl_first_comma(body@, record, comma as int);
                                        let perm = spec_perm_json(record.download_permission);
                                        assert(after_comma@ =~= spec_dp_field(
                                            record.download_permission,
                                        ));
                                        assert(spec_starts_with(perm_text@, perm)) by {
                                            assert(perm_text@.take(perm.len() as int) =~= perm);
                                        }
                                    }
                                }
                            }
                            return Err(UploadError::InternalServerError);
                        }
                    };
                    if parsed.1 != body_len - 6 - comma - 1 - 22 {
                        proof {
                            assert forall|record: FileData| !spec_record_accepts(s@, record) by {
                                if spec_record_accepts(s@, record) {
                                    lemma_ttl_first_comma(body@, record, comma as int);
                                    let perm = spec_perm_json(record.download_permission);
                                    assert(after_comma@ =~= spec_dp_field(
                                        record.download_permission,
                                    ));
                                    assert(spec_starts_with(perm_text@, perm)) by {
                                        assert(perm_text@.take(perm.len() as int) =~= perm);
                                    }
                                    lemma_perm_prefix_unique(
                                        perm_text@,
                                        parsed.0,
                                        record.download_permission,
                                    );
                                    assert(perm_text@.len() == perm.len());
                                }
                            }
                        }
                        return Err(UploadError::InternalServerError);
                    }
                    let record = FileData { download_permission: parsed.0, ttl };
                    proof {
                        assert(perm_text@ =~= spec_perm_json(parsed.0));
                        assert(body@ =~= spec_ttl_field(ttl) + ","@ + spec_dp_field(parsed.0));
                    }
                    Ok(record)
                }
            }
        } else {
            proof {
                assert forall|record: FileData| !spec_record_accepts(s@, record) by {
                    if spec_record_accepts(s@, record) {
                        lemma_body_cases(body@, record);
                    }
                }
            }
            Err(UploadError::InternalServerError)
        }
    }
}

} // verus!
