//! Publishing a draft: its front matter marked published and dated.

use vstd::prelude::*;

use crate::content::{fence, frontmatter_parts, frontmatter_sections};
use crate::new::no_triple_dash;
use crate::text::{chars_of, lemma_find_first, occurs_at, push_char, trim, trim_start};
use crate::date::{iso_date, iso_text, Date};

verus! {

#[verifier::external_type_specification]
#[verifier::external_body]
pub struct ExYamlValue(serde_yml::Value);

#[verifier::external_type_specification]
#[verifier::external_body]
pub struct ExYamlError(serde_yml::Error);

/// Whether serde_yml reads a text as a YAML value.
pub uninterp spec fn yaml_accepts(text: Seq<char>) -> bool;

/// The YAML value serde_yml reads from a text.
pub uninterp spec fn yaml_parsed(text: Seq<char>) -> serde_yml::Value;

/// Whether a YAML value is a mapping.
pub uninterp spec fn yaml_is_mapping(v: serde_yml::Value) -> bool;

/// The keys of a YAML mapping, in order.
pub uninterp spec fn yaml_keys(v: serde_yml::Value) -> Seq<Seq<char>>;

/// The entry of a YAML mapping under a key, if it has one.
pub uninterp spec fn yaml_entry(v: serde_yml::Value, key: Seq<char>) -> Option<serde_yml::Value>;

/// A YAML value with the entry under `key` set to `item`.
pub uninterp spec fn yaml_inserted(v: serde_yml::Value, key: Seq<char>, item: serde_yml::Value) -> serde_yml::Value;

/// The YAML boolean `b`.
pub uninterp spec fn yaml_bool_value(b: bool) -> serde_yml::Value;

/// The YAML string `s`.
pub uninterp spec fn yaml_string_value(s: Seq<char>) -> serde_yml::Value;

/// Whether serde_yml can write a YAML value as text.
pub uninterp spec fn yaml_writable(v: serde_yml::Value) -> bool;

/// The text serde_yml writes for a YAML value.
pub uninterp spec fn yaml_written(v: serde_yml::Value) -> Seq<char>;

/// Reads a YAML value (`serde_yml::from_str::<Value>`).
///
/// Trusted: it succeeds exactly on the texts serde_yml accepts, and the value
/// read is a function of the text alone.
#[verifier::external_body]
fn parse_yaml(text: &str) -> (r: Result<serde_yml::Value, serde_yml::Error>)
    ensures
        r is Ok <==> yaml_accepts(text@),
        r matches Ok(v) ==> v == yaml_parsed(text@),
{
    serde_yml::from_str(text)
}

/// Whether a YAML value is a mapping (`Value::is_mapping`).
#[verifier::external_body]
fn is_mapping(v: &serde_yml::Value) -> (r: bool)
    ensures
        r == yaml_is_mapping(*v),
{
    v.is_mapping()
}

/// The entry of a mapping for `key` (`Value::get`).
///
/// Trusted: on a mapping there is an entry exactly when `key` is one of its
/// keys, and it is the mapping's entry under `key`.
#[verifier::external_body]
fn yaml_get<'a>(v: &'a serde_yml::Value, key: &str) -> (r: Option<&'a serde_yml::Value>)
    ensures
        yaml_is_mapping(*v) ==> (r is Some <==> yaml_keys(*v).contains(key@)),
        r matches Some(x) ==> yaml_entry(*v, key@) == Some(*x),
{
    v.get(key)
}

/// `keys` with `key` added at the end unless it is among them already.
pub open spec fn with_key(keys: Seq<Seq<char>>, key: Seq<char>) -> Seq<Seq<char>> {
    if keys.contains(key) {
        keys
    } else {
        keys.push(key)
    }
}

/// Sets the entry of a mapping for `key` (`Value::insert`).
///
/// Trusted: the value becomes `yaml_inserted` of the old value, the key and
/// the item. On a mapping (an insertion-ordered map in serde_yml) it stays a
/// mapping whose keys keep their order, `key` added last when it was not
/// among them; the entry under `key` is `item` and every other entry stays.
#[verifier::external_body]
fn yaml_insert(v: &mut serde_yml::Value, key: &str, item: serde_yml::Value)
    ensures
        *final(v) == yaml_inserted(*old(v), key@, item),
        yaml_is_mapping(*final(v)) == yaml_is_mapping(*old(v)),
        yaml_is_mapping(*old(v)) ==> yaml_keys(*final(v)) == with_key(yaml_keys(*old(v)), key@),
        yaml_is_mapping(*old(v)) ==> yaml_entry(*final(v), key@) == Some(item),
        yaml_is_mapping(*old(v)) ==> forall|k: Seq<char>|
            k != key@ ==> #[trigger] yaml_entry(*final(v), k) == yaml_entry(*old(v), k),
{
    v.insert(key, item);
}

/// The YAML boolean `b` (`Value::Bool`).
#[verifier::external_body]
fn yaml_bool(b: bool) -> (r: serde_yml::Value)
    ensures
        r == yaml_bool_value(b),
        !yaml_is_mapping(r),
{
    serde_yml::Value::Bool(b)
}

/// The YAML string `s` (`Value::String`).
#[verifier::external_body]
fn yaml_string(s: String) -> (r: serde_yml::Value)
    ensures
        r == yaml_string_value(s@),
        !yaml_is_mapping(r),
{
    serde_yml::Value::String(s)
}

/// Writes a YAML value as text (`serde_yml::to_string`).
///
/// Trusted: whether it succeeds, and the text, are functions of the value
/// alone. The text itself is left to the name.
#[verifier::external_body]
fn yaml_text(v: &serde_yml::Value) -> (r: Result<String, serde_yml::Error>)
    ensures
        r is Ok <==> yaml_writable(*v),
        r matches Ok(s) ==> s@ == yaml_written(*v),
{
    serde_yml::to_string(v)
}

/// Why a draft's front matter could not be updated.
pub enum PublishError {
    /// The front matter is not YAML.
    InvalidFrontmatter(serde_yml::Error),
    /// The updated front matter could not be written back as YAML.
    Unwritable(serde_yml::Error),
}

/// `---` and a line break, which open the updated front matter.
pub open spec fn opening() -> Seq<char> {
    seq!['-', '-', '-', '\n']
}

/// A text ending in a line break: `s` itself when it ends in one, else `s`
/// and a line break.
pub open spec fn line_ended(s: Seq<char>) -> Seq<char> {
    if s.len() > 0 && s.last() == '\n' {
        s
    } else {
        s.push('\n')
    }
}

/// The document a publication writes: `---` and a line break, the updated
/// front matter's text, `---` and a line break, then the draft's text after
/// its front matter, untouched.
pub open spec fn published_document(yaml: Seq<char>, rest: Seq<char>) -> Seq<char> {
    opening() + yaml + opening() + rest
}

/// A published document reads back as its parts: cutting it at the `---`
/// fences gives the written YAML text, line-ended (after the line break that
/// opens it), and the draft's rest (after the line break that closes the
/// fence), whose trimmed form, the post's body, is that of the rest; this
/// holds when the YAML text holds no `---`.
pub proof fn lemma_published_reads_back(text: Seq<char>, rest: Seq<char>)
    requires
        no_triple_dash(text),
    ensures
        frontmatter_parts(published_document(line_ended(text), rest)) == Some(
            (seq!['\n'] + line_ended(text), seq!['\n'] + rest),
        ),
        trim(seq!['\n'] + rest) == trim(rest),
{
    let yaml = line_ended(text);
    assert forall|i: int| 0 <= i && i + 2 < yaml.len() implies !(#[trigger] yaml[i] == '-' && yaml[i
        + 1] == '-' && yaml[i + 2] == '-') by {
        if i + 2 >= text.len() {
            assert(yaml[yaml.len() - 1] == '\n');
            assert(i + 2 == yaml.len() - 1);
        }
    }
    assert(yaml.last() == '\n');
    let doc = published_document(yaml, rest);
    let y = seq!['\n'] + yaml;
    let after = doc.skip(3);
    assert(doc =~= fence() + (y + fence() + (seq!['\n'] + rest)));
    assert(after =~= y + fence() + (seq!['\n'] + rest));
    assert forall|j: int| 0 <= j < y.len() implies !occurs_at(after, fence(), j) by {
        if occurs_at(after, fence(), j) {
            let w = after.subrange(j, j + 3);
            assert(w[0] == '-' && w[1] == '-' && w[2] == '-');
            assert(after[j] == w[0] && after[j + 1] == w[1] && after[j + 2] == w[2]);
            if j == 0 {
                assert(after[0] == '\n');
            } else if j + 2 < y.len() {
                assert(after[j] == yaml[j - 1]);
                assert(after[j + 1] == yaml[j]);
                assert(after[j + 2] == yaml[j + 1]);
                assert(!(yaml[j - 1] == '-' && yaml[j] == '-' && yaml[j + 1] == '-'));
            } else {
                let n = y.len() - 1;
                assert(after[n] == yaml[yaml.len() - 1]);
                assert(w[n - j] == after[n]);
            }
        }
    }
    assert(after.subrange(y.len() as int, y.len() as int + 3) =~= fence());
    lemma_find_first(after, fence(), 0, y.len() as int);
    assert(after.take(y.len() as int) =~= y);
    assert(after.skip(y.len() as int + 3) =~= seq!['\n'] + rest);
    assert(doc.take(3) =~= fence());
    assert((seq!['\n'] + rest).drop_first() =~= rest);
    assert(trim_start(seq!['\n'] + rest) == trim_start(rest));
}

/// The front matter value a draft's value `v` becomes when published on the
/// day written `today`: a mapping gets `published: true` and, unless it has
/// a `date`, `date: today`; any other value stays as it is.
pub open spec fn published_value(v: serde_yml::Value, today: Seq<char>) -> serde_yml::Value {
    if yaml_is_mapping(v) {
        let v1 = yaml_inserted(v, "published"@, yaml_bool_value(true));
        if yaml_keys(v).contains("date"@) {
            v1
        } else {
            yaml_inserted(v1, "date"@, yaml_string_value(today))
        }
    } else {
        v
    }
}

/// `v2` is the mapping `v` published on the day written `today`: its keys
/// are those of `v` in their order, then `published` and `date` when they
/// were missing; `published` is true; `date` is the one `v` had, else
/// `today`; every other entry is that of `v`.
pub open spec fn publishes_mapping(v: serde_yml::Value, v2: serde_yml::Value, today: Seq<char>) -> bool {
    &&& yaml_is_mapping(v2)
    &&& yaml_keys(v2) == with_key(with_key(yaml_keys(v), "published"@), "date"@)
    &&& yaml_entry(v2, "published"@) == Some(yaml_bool_value(true))
    &&& yaml_entry(v2, "date"@) == (if yaml_keys(v).contains("date"@) {
        yaml_entry(v, "date"@)
    } else {
        Some(yaml_string_value(today))
    })
    &&& forall|k: Seq<char>|
        k != "published"@ && k != "date"@ ==> #[trigger] yaml_entry(v2, k) == yaml_entry(v, k)
}

/// The day `today` written as `YYYY-MM-DD`.
pub open spec fn today_text(today: Date) -> Seq<char> {
    iso_text(today@.0, today@.1, today@.2)
}

/// The document a draft becomes when published: with front matter, the front
/// matter is read as YAML and, when it is a mapping, `published` is set to
/// true and `date` to `today` (as `YYYY-MM-DD`) unless it has one; it is
/// written back between `---` lines and the rest of the draft follows
/// unchanged. Without front matter the draft stays as it is.
pub fn update_frontmatter(content: &str, today: &Date) -> (r: Result<String, PublishError>)
    ensures
        frontmatter_parts(content@) is None ==> (r matches Ok(doc) && doc@ == content@),
        frontmatter_parts(content@) matches Some((yaml, rest)) ==> {
            &&& (r matches Err(PublishError::InvalidFrontmatter(_))) <==> !yaml_accepts(yaml)
            &&& yaml_accepts(yaml) ==> {
                let v2 = published_value(yaml_parsed(yaml), today_text(*today));
                &&& (r is Ok <==> yaml_writable(v2))
                &&& (r matches Ok(doc) ==> doc@ == published_document(
                    line_ended(yaml_written(v2)),
                    rest,
                ))
                &&& yaml_is_mapping(yaml_parsed(yaml)) ==> publishes_mapping(
                    yaml_parsed(yaml),
                    v2,
                    today_text(*today),
                )
            }
        },
{
    let (yaml, rest) = match frontmatter_sections(content) {
        None => {
            return Ok(content.to_owned());
        },
        Some(parts) => parts,
    };
    let mut value = match parse_yaml(yaml.as_str()) {
        Ok(v) => v,
        Err(e) => {
            return Err(PublishError::InvalidFrontmatter(e));
        },
    };
    let ghost v0 = value;
    let ghost day = today_text(*today);
    proof {
        reveal_strlit("published");
        reveal_strlit("date");
        assert("published"@ != "date"@) by {
            assert("published"@[0] != "date"@[0]);
        }
    }
    if is_mapping(&value) {
        yaml_insert(&mut value, "published", yaml_bool(true));
        let ghost v1 = value;
        if yaml_get(&value, "date").is_none() {
            let date = iso_date(today);
            yaml_insert(&mut value, "date", yaml_string(date));
            proof {
                assert(!yaml_keys(v0).contains("date"@)) by {
                    let ks = yaml_keys(v0);
                    if ks.contains("date"@) {
                        let i = choose|i: int| 0 <= i < ks.len() && ks[i] == "date"@;
                        if !ks.contains("published"@) {
                            assert(ks.push("published"@)[i] == "date"@);
                        }
                        assert(with_key(ks, "published"@).contains("date"@));
                    }
                }
            }
        } else {
            proof {
                assert(yaml_keys(v0).contains("date"@)) by {
                    let ks = yaml_keys(v0);
                    if !ks.contains("date"@) {
                        if !ks.contains("published"@) {
                            assert(ks.push("published"@).contains("date"@));
                            let i = choose|i: int|
                                0 <= i < ks.push("published"@).len() && ks.push("published"@)[i]
                                    == "date"@;
                            if i < ks.len() {
                                assert(ks[i] == "date"@);
                            }
                        }
                    }
                }
                assert(with_key(with_key(yaml_keys(v0), "published"@), "date"@) == with_key(
                    yaml_keys(v0),
                    "published"@,
                )) by {
                    let ks = yaml_keys(v0);
                    if !ks.contains("published"@) {
                        let i = choose|i: int| 0 <= i < ks.len() && ks[i] == "date"@;
                        assert(ks.push("published"@)[i] == "date"@);
                    }
                }
            }
        }
        proof {
            assert(value == published_value(v0, day));
        }
    }
    let text = match yaml_text(&value) {
        Ok(t) => t,
        Err(e) => {
            return Err(PublishError::Unwritable(e));
        },
    };
    let mut doc = String::new();
    doc.append("---\n");
    doc.append(text.as_str());
    // serde_yml may end the text without a line break; the closing fence
    // goes on a line of its own.
    let tc = chars_of(text.as_str());
    if tc.len() == 0 || tc[tc.len() - 1] != '\n' {
        push_char(&mut doc, '\n');
    }
    doc.append("---\n");
    doc.append(rest.as_str());
    proof {
        reveal_strlit("---\n");
        assert(doc@ =~= published_document(line_ended(text@), rest@));
    }
    Ok(doc)
}

} // verus!
