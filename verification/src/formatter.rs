//! The formatter: substitutes a record's fields into a template at
//! placeholders built from a delimiter pair, failing when a field's
//! placeholder is absent.

use crate::text::contains_seq;
use crate::text::contains_str;
use crate::text::replace_all;
use crate::text::replaced;
use crate::value::render;
use crate::value::rendered_of;
use crate::value::Value;
use vstd::prelude::*;
use vstd::string::StringExecFns;

verus! {

/// Why a formatting call failed.
#[derive(Debug)]
pub enum Error {
    /// The named field has no placeholder in the template.
    NoVar(String),
    /// The record could not be serialized to a flat field map; carries the
    /// serialization layer's detail text.
    SerdeJson(String),
}

impl Error {
    /// The display text of the error.
    pub open spec fn message_of(&self) -> Seq<char> {
        match self {
            Error::NoVar(k) => "absent variable `"@ + k@ + "`"@,
            Error::SerdeJson(_) => "serde_json"@,
        }
    }

    /// Renders the error as text, naming the offending field.
    pub fn message(&self) -> (r: String)
        ensures
            r@ == self.message_of(),
    {
        match self {
            Error::NoVar(k) => {
                let mut s = String::from_str("absent variable `");
                s.append(k.as_str());
                s.append("`");
                proof {
                    assert(s@ =~= self.message_of());
                }
                s
            },
            Error::SerdeJson(_) => String::from_str("serde_json"),
        }
    }
}

/// A record's fields, flattened to name/value pairs. Substitution walks the
/// pairs in insertion order, which makes the result deterministic.
pub struct FieldMap {
    entries: Vec<(String, Value)>,
}

impl View for FieldMap {
    type V = Seq<(String, Value)>;

    closed spec fn view(&self) -> Seq<(String, Value)> {
        self.entries@
    }
}

impl FieldMap {
    /// An empty field map.
    pub fn new() -> (r: FieldMap)
        ensures
            r@ == Seq::<(String, Value)>::empty(),
    {
        FieldMap { entries: Vec::new() }
    }

    /// Appends a field after those already present.
    pub fn insert(&mut self, name: String, value: Value)
        ensures
            final (self)@ == old(self)@.push((name, value)),
    {
        self.entries.push((name, value));
    }

    /// How many fields the map holds.
    pub fn len(&self) -> (n: usize)
        ensures
            n == self@.len(),
    {
        self.entries.len()
    }

    /// The field at position `i`, in insertion order.
    pub fn get(&self, i: usize) -> (r: &(String, Value))
        requires
            i < self@.len(),
        ensures
            *r == self@[i as int],
    {
        &self.entries[i]
    }
}

/// The placeholder text for a field named `name`.
pub open spec fn placeholder_of(left: Seq<char>, name: Seq<char>, right: Seq<char>) -> Seq<char> {
    left + name + right
}

/// Substitutes `fields` into `current`, one field at a time: each field's
/// placeholder is checked against the fixed original `template`, then every
/// occurrence of it in `current` is replaced by the field's rendered value.
/// The result is `Ok` with the filled text, or `Err` with the first field
/// name, in field order, whose placeholder the template lacks.
pub open spec fn subst_fields(
    left: Seq<char>,
    right: Seq<char>,
    fields: Seq<(String, Value)>,
    template: Seq<char>,
    current: Seq<char>,
) -> Result<Seq<char>, Seq<char>>
    decreases fields.len(),
{
    if fields.len() == 0 {
        Ok(current)
    } else {
        let pat = placeholder_of(left, fields[0].0@, right);
        if !contains_seq(template, pat) {
            Err(fields[0].0@)
        } else {
            subst_fields(
                left,
                right,
                fields.skip(1),
                template,
                replaced(current, pat, rendered_of(fields[0].1)),
            )
        }
    }
}

/// What formatting `fields` against `template` returns: substitution starts
/// from the template itself.
pub open spec fn spec_format(
    left: Seq<char>,
    right: Seq<char>,
    fields: Seq<(String, Value)>,
    template: Seq<char>,
) -> Result<Seq<char>, Seq<char>> {
    subst_fields(left, right, fields, template, template)
}

/// A formatter: the pair of delimiter strings that bracket a field name in
/// the template, `{{` and `}}` by default.
pub struct Formatter {
    /// The marker that opens a placeholder.
    pub left: String,
    /// The marker that closes a placeholder.
    pub right: String,
}

impl Default for Formatter {
    /// A formatter with the default delimiter pair `{{` and `}}`.
    fn default() -> (r: Formatter)
        ensures
            r.left@ == "{{"@,
            r.right@ == "}}"@,
            r.wf(),
    {
        proof {
            reveal_strlit("{{");
            reveal_strlit("}}");
        }
        Formatter { left: String::from_str("{{"), right: String::from_str("}}") }
    }
}

impl Formatter {
    /// Both delimiters are nonempty, so every placeholder is a nonempty
    /// string and replacement is well defined.
    pub open spec fn wf(&self) -> bool {
        self.left@.len() > 0 && self.right@.len() > 0
    }

    /// A formatter with the given delimiter pair.
    pub fn new(left: String, right: String) -> (r: Formatter)
        requires
            left@.len() > 0,
            right@.len() > 0,
        ensures
            r.left@ == left@,
            r.right@ == right@,
            r.wf(),
    {
        Formatter { left, right }
    }

    /// Fills `template` with the fields of `fields`: every occurrence of each
    /// field's placeholder is replaced by the field's rendered value, in
    /// insertion order; the call fails with `Error::NoVar` on the first
    /// field, in that order, whose placeholder the original template lacks.
    pub fn format(&self, fields: &FieldMap, template: &str) -> (r: Result<String, Error>)
        requires
            self.wf(),
        ensures
            ({
                let m = spec_format(self.left@, self.right@, fields@, template@);
                match m {
                    Ok(t) => r matches Ok(s) && s@ == t,
                    Err(name) => r matches Err(e) && e matches Error::NoVar(k) && k@ == name,
                }
            }),
            r is Ok <==> (forall|j: int|
                0 <= j < fields@.len() ==> contains_seq(
                    template@,
                    placeholder_of(self.left@, fields@[j].0@, self.right@),
                )),
    {
        let ghost gl = self.left@;
        let ghost gr = self.right@;
        let mut cur: String = String::from_str(template);
        let flen = fields.len();
        let mut idx: usize = 0;
        proof {
            assert(fields@.skip(0) =~= fields@);
        }
        while idx < flen
            invariant
                self.wf(),
                gl == self.left@,
                gr == self.right@,
                flen == fields@.len(),
                idx <= flen,
                subst_fields(gl, gr, fields@.skip(idx as int), template@, cur@) == spec_format(
                    gl,
                    gr,
                    fields@,
                    template@,
                ),
                forall|j: int|
                    0 <= j < idx ==> contains_seq(
                        template@,
                        placeholder_of(gl, fields@[j].0@, gr),
                    ),
            decreases flen - idx,
        {
            let entry = fields.get(idx);
            let mut pat = self.left.clone();
            pat.append(entry.0.as_str());
            pat.append(self.right.as_str());
            proof {
                assert(fields@.skip(idx as int)[0] == fields@[idx as int]);
                assert(pat@ == placeholder_of(gl, fields@[idx as int].0@, gr));
            }
            if !contains_str(template, pat.as_str()) {
                return Err(Error::NoVar(entry.0.clone()));
            }
            let rendered = render(&entry.1);
            cur = replace_all(cur.as_str(), pat.as_str(), rendered.as_str());
            proof {
                assert(fields@.skip(idx as int).skip(1) =~= fields@.skip(idx + 1));
            }
            idx = idx + 1;
        }
        proof {
            assert(fields@.skip(flen as int) =~= Seq::<(String, Value)>::empty());
        }
        Ok(cur)
    }
}

/// The formatter contract: a record type that can flatten itself to a field
/// map fills templates with its own field values. Implementers provide the
/// delimiter pair and the flattening; `format` comes for free.
pub trait Format {
    /// The opening delimiter, in specification form.
    open spec fn left_delim(&self) -> Seq<char> {
        "{{"@
    }

    /// The closing delimiter, in specification form.
    open spec fn right_delim(&self) -> Seq<char> {
        "}}"@
    }

    /// The record's flattened fields in specification form, or `None` when
    /// the record cannot be flattened to a field map.
    open spec fn field_model(&self) -> Option<Seq<(String, Value)>> {
        None
    }

    /// The delimiter pair that brackets a field name in a placeholder; both
    /// sides nonempty.
    fn placeholders(&self) -> (p: (String, String))
        ensures
            p.0@ == self.left_delim(),
            p.1@ == self.right_delim(),
            p.0@.len() > 0,
            p.1@.len() > 0,
    ;

    /// Flattens the record to its field map, freshly on every call, or
    /// reports the serialization failure.
    fn to_fields(&self) -> (r: Result<FieldMap, Error>)
        ensures
            ({
                match self.field_model() {
                    Some(f) => r matches Ok(fm) && fm@ == f,
                    None => r matches Err(e) && e matches Error::SerdeJson(_),
                }
            }),
    ;

    /// Fills `template` using this record's fields, exactly as a `Formatter`
    /// with this record's delimiter pair would.
    fn format(&self, template: &str) -> (r: Result<String, Error>)
        ensures
            ({
                match self.field_model() {
                    Some(f) => match spec_format(
                        self.left_delim(),
                        self.right_delim(),
                        f,
                        template@,
                    ) {
                        Ok(t) => r matches Ok(s) && s@ == t,
                        Err(name) => r matches Err(e) && e matches Error::NoVar(k) && k@ == name,
                    },
                    None => r matches Err(e) && e matches Error::SerdeJson(_),
                }
            }),
    {
        let fields = match self.to_fields() {
            Ok(f) => f,
            Err(e) => return Err(e),
        };
        let (l, r2) = self.placeholders();
        let fmt = Formatter::new(l, r2);
        fmt.format(&fields, template)
    }
}

} // verus!
