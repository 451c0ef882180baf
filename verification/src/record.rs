//! The persisted descriptor record: a plugin's self-reported metadata object
//! with the backing file name injected as a leading `__file_name` field.
//!
//! A record is ordinary structured text, so that the durable store only ever
//! holds plain strings.  Encoding and decoding are exact inverses, proved
//! below, which is what lets the manager recover the backing file name of any
//! descriptor it has persisted.

use vstd::prelude::*;
use vstd::string::StrSliceExecFns;

verus! {

/// One character escaped for use inside a double-quoted field: a quote or a
/// backslash gains a leading backslash, every other character stands alone.
pub open spec fn esc_char(c: char) -> Seq<char> {
    if c == '"' || c == '\\' {
        seq!['\\', c]
    } else {
        seq![c]
    }
}

/// A whole field escaped, character by character.
pub open spec fn esc(s: Seq<char>) -> Seq<char>
    decreases s.len(),
{
    if s.len() == 0 {
        Seq::empty()
    } else {
        esc_char(s[0]) + esc(s.skip(1))
    }
}

/// Escaping distributes over concatenation.
pub proof fn lemma_esc_append(a: Seq<char>, b: Seq<char>)
    ensures
        esc(a + b) == esc(a) + esc(b),
    decreases a.len(),
{
    if a.len() == 0 {
        assert(a + b =~= b);
        assert(esc(a) + esc(b) =~= esc(b));
    } else {
        assert((a + b).skip(1) =~= a.skip(1) + b);
        lemma_esc_append(a.skip(1), b);
        assert((a + b)[0] == a[0]);
        assert(esc(a + b) =~= esc(a) + esc(b));
    }
}

/// Escaping a single character.
pub proof fn lemma_esc_one(c: char)
    ensures
        esc(seq![c]) == esc_char(c),
{
    let one = seq![c];
    assert(one.skip(1) =~= Seq::<char>::empty());
    assert(esc(one) == esc_char(one[0]) + esc(one.skip(1)));
    assert(esc_char(c) + Seq::<char>::empty() =~= esc_char(c));
}

/// Escaping one character at the end of a field.
pub proof fn lemma_esc_snoc(s: Seq<char>, i: int)
    requires
        0 <= i < s.len(),
    ensures
        esc(s.take(i + 1)) == esc(s.take(i)) + esc_char(s[i]),
{
    assert(s.take(i + 1) =~= s.take(i) + seq![s[i]]);
    lemma_esc_append(s.take(i), seq![s[i]]);
    lemma_esc_one(s[i]);
}

/// Appends the escaped form of `src` to `out`.
fn escape_into(src: &Vec<char>, out: &mut Vec<char>)
    ensures
        final(out)@ == old(out)@ + esc(src@),
{
    let mut i: usize = 0;
    while i < src.len()
        invariant
            i <= src.len(),
            out@ == old(out)@ + esc(src@.take(i as int)),
        decreases src.len() - i,
    {
        let c = src[i];
        if c == '"' || c == '\\' {
            out.push('\\');
        }
        out.push(c);
        proof {
            lemma_esc_snoc(src@, i as int);
        }
        i = i + 1;
    }
    proof {
        assert(src@.take(src@.len() as int) =~= src@);
    }
}

/// The characters of `s`, in order.
fn str_chars(s: &str) -> (r: Vec<char>)
    ensures
        r@ == s@,
{
    let n = s.unicode_len();
    let mut r: Vec<char> = Vec::new();
    let mut i: usize = 0;
    while i < n
        invariant
            n == s@.len(),
            i <= n,
            r@ == s@.take(i as int),
        decreases n - i,
    {
        r.push(s.get_char(i));
        proof {
            assert(s@.take(i + 1 as int) =~= s@.take(i as int).push(s@[i as int]));
        }
        i = i + 1;
    }
    proof {
        assert(s@.take(n as int) =~= s@);
    }
    r
}

/// Relies on `String: FromIterator<char>`: collecting characters yields the
/// string with exactly those characters in order.
#[verifier::external_body]
fn chars_to_string(v: &Vec<char>) -> (r: String)
    ensures
        r@ == v@,
{
    v.iter().collect()
}

/// The characters that open every record: `{"__file_name":"`.
pub open spec fn record_prefix() -> Seq<char> {
    seq!['{', '"', '_', '_', 'f', 'i', 'l', 'e', '_', 'n', 'a', 'm', 'e', '"', ':', '"']
}

/// Textual shape of a metadata object: brace-wrapped text.
pub open spec fn wf_info(s: Seq<char>) -> bool {
    &&& s.len() >= 2
    &&& s[0] == '{'
    &&& s[s.len() - 1] == '}'
}

/// The persisted record for metadata `info` and backing file `name`: the
/// metadata object with a `__file_name` field spliced in at the front.
pub open spec fn record_of(info: Seq<char>, name: Seq<char>) -> Seq<char> {
    record_prefix() + esc(name) + seq!['"'] + (if info.len() == 2 {
        seq!['}']
    } else {
        seq![','] + info.skip(1)
    })
}

/// Scans a double-quoted field from the front of `s`: the characters up to
/// the first unescaped quote, with escapes undone.  Yields the decoded field
/// and how many characters were consumed, closing quote included; `None` when
/// the quote is missing or an escape is not canonical.
pub open spec fn unesc_scan(s: Seq<char>) -> Option<(Seq<char>, int)>
    decreases s.len(),
{
    if s.len() == 0 {
        None
    } else if s[0] == '"' {
        Some((Seq::empty(), 1))
    } else if s[0] == '\\' {
        if s.len() >= 2 && (s[1] == '"' || s[1] == '\\') {
            match unesc_scan(s.skip(2)) {
                Some(p) => Some((seq![s[1]] + p.0, p.1 + 2)),
                None => None,
            }
        } else {
            None
        }
    } else {
        match unesc_scan(s.skip(1)) {
            Some(p) => Some((seq![s[0]] + p.0, p.1 + 1)),
            None => None,
        }
    }
}

/// A scan recovers exactly the field that was escaped, whatever follows the
/// closing quote.
pub proof fn lemma_scan_esc(name: Seq<char>, tail: Seq<char>)
    ensures
        unesc_scan(esc(name) + seq!['"'] + tail) == Some::<(Seq<char>, int)>(
            (name, esc(name).len() as int + 1),
        ),
    decreases name.len(),
{
    let s = esc(name) + seq!['"'] + tail;
    if name.len() == 0 {
        assert(s =~= seq!['"'] + tail);
        assert(s[0] == '"');
        assert(name =~= Seq::<char>::empty());
    } else {
        let c = name[0];
        let rest = esc(name.skip(1)) + seq!['"'] + tail;
        assert(esc(name) == esc_char(c) + esc(name.skip(1)));
        lemma_scan_esc(name.skip(1), tail);
        if c == '"' || c == '\\' {
            assert(s[0] == '\\' && s[1] == c);
            assert(s.skip(2) =~= rest);
            assert(seq![c] + name.skip(1) =~= name);
        } else {
            assert(s[0] == c);
            assert(s.skip(1) =~= rest);
            assert(seq![c] + name.skip(1) =~= name);
        }
    }
}

/// Whatever a scan accepts, it consumed the canonical escape of what it
/// returned.
pub proof fn lemma_scan_sound(s: Seq<char>)
    ensures
        unesc_scan(s) matches Some(p) ==> {
            &&& 1 <= p.1 <= s.len()
            &&& s.take(p.1) == esc(p.0) + seq!['"']
        },
    decreases s.len(),
{
    if s.len() == 0 {
    } else if s[0] == '"' {
        assert(s.take(1) =~= esc(Seq::<char>::empty()) + seq!['"']);
    } else if s[0] == '\\' {
        if s.len() >= 2 && (s[1] == '"' || s[1] == '\\') {
            lemma_scan_sound(s.skip(2));
            if let Some(p) = unesc_scan(s.skip(2)) {
                assert(esc(seq![s[1]] + p.0) == esc_char(s[1]) + esc(p.0)) by {
                    lemma_esc_append(seq![s[1]], p.0);
                    lemma_esc_one(s[1]);
                }
                assert(s.take(p.1 + 2) =~= seq!['\\', s[1]] + s.skip(2).take(p.1));
                assert(s.take(p.1 + 2) =~= esc(seq![s[1]] + p.0) + seq!['"']);
            }
        }
    } else {
        lemma_scan_sound(s.skip(1));
        if let Some(p) = unesc_scan(s.skip(1)) {
            assert(esc(seq![s[0]] + p.0) == esc_char(s[0]) + esc(p.0)) by {
                lemma_esc_append(seq![s[0]], p.0);
                lemma_esc_one(s[0]);
            }
            assert(s.take(p.1 + 1) =~= seq![s[0]] + s.skip(1).take(p.1));
            assert(s.take(p.1 + 1) =~= esc(seq![s[0]] + p.0) + seq!['"']);
        }
    }
}

/// What a stored record means: the metadata object and backing file name it
/// was made from, or nothing if the text is not a record.
pub open spec fn parse_record(s: Seq<char>) -> Option<(Seq<char>, Seq<char>)> {
    if s.len() < record_prefix().len() || s.take(record_prefix().len() as int)
        != record_prefix() {
        None
    } else {
        match unesc_scan(s.skip(record_prefix().len() as int)) {
            None => None,
            Some((name, k)) => {
                let rest = s.skip(record_prefix().len() + k);
                if rest.len() == 1 && rest[0] == '}' {
                    Some((seq!['{', '}'], name))
                } else if rest.len() >= 3 && rest[0] == ',' && rest[rest.len() - 1] == '}' {
                    Some((seq!['{'] + rest.skip(1), name))
                } else {
                    None
                }
            },
        }
    }
}

/// `s` is the record of some metadata object and file name.
pub open spec fn is_record(s: Seq<char>) -> bool {
    parse_record(s) is Some
}

/// Decoding recovers exactly what was encoded.
pub proof fn lemma_record_roundtrip(info: Seq<char>, name: Seq<char>)
    requires
        wf_info(info),
    ensures
        parse_record(record_of(info, name)) == Some::<(Seq<char>, Seq<char>)>((info, name)),
{
    let s = record_of(info, name);
    let suffix: Seq<char> = if info.len() == 2 {
        seq!['}']
    } else {
        seq![','] + info.skip(1)
    };
    let plen = record_prefix().len() as int;
    assert(s =~= record_prefix() + (esc(name) + seq!['"'] + suffix));
    assert(s.take(plen) =~= record_prefix());
    assert(s.skip(plen) =~= esc(name) + seq!['"'] + suffix);
    lemma_scan_esc(name, suffix);
    let k = esc(name).len() + 1;
    assert(s.skip(plen + k) =~= suffix);
    if info.len() == 2 {
        assert(seq!['{', '}'] =~= info);
    } else {
        assert(suffix[0] == ',');
        assert(suffix[suffix.len() - 1] == info[info.len() - 1]);
        assert(seq!['{'] + suffix.skip(1) =~= info);
    }
}

/// Whatever decodes at all decodes to something whose encoding is the input:
/// a record determines its metadata and file name uniquely.
pub proof fn lemma_parse_sound(s: Seq<char>)
    ensures
        parse_record(s) matches Some(p) ==> {
            &&& wf_info(p.0)
            &&& s == record_of(p.0, p.1)
        },
{
    let plen = record_prefix().len() as int;
    if s.len() >= plen && s.take(plen) == record_prefix() {
        lemma_scan_sound(s.skip(plen));
        if let Some((name, k)) = unesc_scan(s.skip(plen)) {
            let rest = s.skip(plen + k);
            assert(s.skip(plen).take(k) == esc(name) + seq!['"']);
            assert(s =~= s.take(plen) + s.skip(plen).take(k) + rest);
            if rest.len() == 1 && rest[0] == '}' {
                assert(rest =~= seq!['}']);
                assert(s =~= record_of(seq!['{', '}'], name));
            } else if rest.len() >= 3 && rest[0] == ',' && rest[rest.len() - 1] == '}' {
                let info = seq!['{'] + rest.skip(1);
                assert(wf_info(info));
                assert(seq![','] + info.skip(1) =~= rest);
                assert(s =~= record_of(info, name));
            }
        }
    }
}

/// The record prefix as runtime characters.
fn record_prefix_chars() -> (r: Vec<char>)
    ensures
        r@ == record_prefix(),
{
    let mut out: Vec<char> = Vec::new();
    out.push('{');
    out.push('"');
    out.push('_');
    out.push('_');
    out.push('f');
    out.push('i');
    out.push('l');
    out.push('e');
    out.push('_');
    out.push('n');
    out.push('a');
    out.push('m');
    out.push('e');
    out.push('"');
    out.push(':');
    out.push('"');
    proof {
        assert(out@ =~= record_prefix());
    }
    out
}

/// Builds the persisted record for metadata `info` and backing file `name`.
pub fn encode_record(info: &str, name: &str) -> (r: String)
    requires
        wf_info(info@),
    ensures
        r@ == record_of(info@, name@),
{
    let info_c = str_chars(info);
    let name_c = str_chars(name);
    let mut out = record_prefix_chars();
    escape_into(&name_c, &mut out);
    out.push('"');
    if info_c.len() == 2 {
        out.push('}');
    } else {
        out.push(',');
        let mut i: usize = 1;
        while i < info_c.len()
            invariant
                1 <= i <= info_c@.len(),
                info_c@ == info@,
                out@ == record_prefix() + esc(name@) + seq!['"'] + seq![','] + info@.skip(
                    1,
                ).take(i - 1),
            decreases info_c@.len() - i,
        {
            out.push(info_c[i]);
            proof {
                assert(info@.skip(1).take(i as int) =~= info@.skip(1).take(i - 1).push(
                    info@[i as int],
                ));
            }
            i = i + 1;
        }
        proof {
            assert(info@.skip(1).take(info@.len() - 1) =~= info@.skip(1));
        }
    }
    proof {
        assert(out@ =~= record_of(info@, name@));
    }
    chars_to_string(&out)
}

/// Reads a persisted record back: the metadata object and backing file name
/// it encodes, or `None` where `s` is not a record.
pub fn decode_record(s: &str) -> (r: Option<(String, String)>)
    ensures
        match r {
            Some(p) => parse_record(s@) == Some::<(Seq<char>, Seq<char>)>((p.0@, p.1@)),
            None => parse_record(s@) is None,
        },
{
    let v = str_chars(s);
    let pv = record_prefix_chars();
    if v.len() < 16 {
        return None;
    }
    let mut j: usize = 0;
    while j < 16
        invariant
            j <= 16,
            v@ == s@,
            pv@ == record_prefix(),
            v@.len() >= 16,
            forall|q: int| 0 <= q < j ==> v@[q] == record_prefix()[q],
        decreases 16 - j,
    {
        if v[j] != pv[j] {
            proof {
                assert(s@.take(16)[j as int] != record_prefix()[j as int]);
            }
            return None;
        }
        j = j + 1;
    }
    proof {
        assert(s@.take(16) =~= record_prefix());
        assert(record_prefix().len() == 16);
    }
    let ghost t = s@.skip(16);
    let mut name: Vec<char> = Vec::new();
    let mut i: usize = 16;
    let mut found = false;
    while i < v.len() && !found
        invariant
            16 <= i <= v@.len(),
            v@ == s@,
            s@.len() >= 16,
            s@.take(16) == record_prefix(),
            t == s@.skip(16),
            found ==> i < v@.len() && v@[i as int] == '"',
            match unesc_scan(s@.skip(i as int)) {
                Some(p) => unesc_scan(t) == Some::<(Seq<char>, int)>(
                    (name@ + p.0, i - 16 + p.1),
                ),
                None => unesc_scan(t) is None,
            },
        decreases v@.len() - i + (if found {
            0int
        } else {
            1int
        }),
    {
        let c = v[i];
        if c == '"' {
            found = true;
        } else if c == '\\' {
            if i + 1 < v.len() && (v[i + 1] == '"' || v[i + 1] == '\\') {
                name.push(v[i + 1]);
                proof {
                    assert(s@.skip(i as int).skip(2) =~= s@.skip(i + 2));
                    if let Some(p) = unesc_scan(s@.skip(i + 2)) {
                        assert(name@ + p.0 =~= name@.drop_last() + (seq![s@[i + 1]] + p.0));
                    }
                }
                i = i + 2;
            } else {
                proof {
                    assert(unesc_scan(s@.skip(i as int)) is None);
                    assert(unesc_scan(t) is None);
                }
                return None;
            }
        } else {
            name.push(c);
            proof {
                assert(s@.skip(i as int).skip(1) =~= s@.skip(i + 1));
                if let Some(p) = unesc_scan(s@.skip(i + 1)) {
                    assert(name@ + p.0 =~= name@.drop_last() + (seq![s@[i as int]] + p.0));
                }
            }
            i = i + 1;
        }
    }
    if !found {
        proof {
            assert(s@.skip(i as int) =~= Seq::<char>::empty());
        }
        return None;
    }
    proof {
        assert(unesc_scan(s@.skip(i as int)) == Some::<(Seq<char>, int)>((Seq::empty(), 1)));
        assert(name@ + Seq::<char>::empty() =~= name@);
        assert(unesc_scan(t) == Some::<(Seq<char>, int)>((name@, i - 16 + 1)));
        assert(s@.skip(16 + (i - 16 + 1)) =~= s@.skip(i + 1));
    }
    let rest_start = i + 1;
    let rlen = v.len() - rest_start;
    if rlen == 1 && v[rest_start] == '}' {
        proof {
            assert(s@.skip(rest_start as int) =~= seq!['}']);
        }
        let mut info: Vec<char> = Vec::new();
        info.push('{');
        info.push('}');
        proof {
            assert(info@ =~= seq!['{', '}']);
        }
        return Some((chars_to_string(&info), chars_to_string(&name)));
    }
    if rlen >= 3 && v[rest_start] == ',' && v[v.len() - 1] == '}' {
        let mut info: Vec<char> = Vec::new();
        info.push('{');
        let mut q = rest_start + 1;
        while q < v.len()
            invariant
                rest_start + 1 <= q <= v@.len(),
                v@ == s@,
                info@ == seq!['{'] + s@.skip(rest_start + 1).take(q - rest_start - 1),
            decreases v@.len() - q,
        {
            info.push(v[q]);
            proof {
                assert(s@.skip(rest_start + 1).take(q - rest_start) =~= s@.skip(
                    rest_start + 1,
                ).take(q - rest_start - 1).push(s@[q as int]));
            }
            q = q + 1;
        }
        proof {
            assert(s@.skip(rest_start + 1).take(s@.len() - rest_start - 1) =~= s@.skip(
                rest_start + 1,
            ));
            assert(s@.skip(rest_start as int).skip(1) =~= s@.skip(rest_start + 1));
            assert(info@ =~= seq!['{'] + s@.skip(rest_start as int).skip(1));
        }
        return Some((chars_to_string(&info), chars_to_string(&name)));
    }
    proof {
        assert(parse_record(s@) is None);
    }
    None
}

/// Whether `s` is the text of a JSON object; this names what the JSON parser
/// accepts, a function of `s` alone.
pub uninterp spec fn json_object(s: Seq<char>) -> bool;

/// Relies on `serde_json::from_str::<Map<String, Value>>`: it succeeds
/// exactly when the input text is a JSON object, deterministically in `s`.
#[verifier::external_body]
fn parses_as_object(s: &str) -> (r: bool)
    ensures
        r == json_object(s@),
{
    serde_json::from_str::<serde_json::Map<String, serde_json::Value>>(s).is_ok()
}

/// Acceptable plugin metadata: a brace-wrapped JSON object.
pub open spec fn valid_info(s: Seq<char>) -> bool {
    wf_info(s) && json_object(s)
}

/// Checks a plugin's self-reported metadata before it is persisted.
pub fn check_info(s: &str) -> (r: bool)
    ensures
        r == valid_info(s@),
{
    let n = s.unicode_len();
    if n < 2 {
        return false;
    }
    if s.get_char(0) != '{' {
        return false;
    }
    if s.get_char(n - 1) != '}' {
        return false;
    }
    parses_as_object(s)
}

} // verus!
