//! Decoding of schema rows into typed entries, and their row form.
use vstd::prelude::*;

use super::types::{
    schemas_view, DOB0TraitValue, Error, ImageType, JsonValue, KeyView, Pattern, SchemaView,
    TraitSchema,
};

verus! {

/// The text of a JSON string, if the value is one.
pub open spec fn json_text(v: JsonValue) -> Option<Seq<char>> {
    match v {
        JsonValue::String(s) => Some(s@),
        _ => None,
    }
}

/// The image type named by a kind keyword.
pub open spec fn image_type_of(k: Seq<char>) -> Option<ImageType> {
    if k == "color"@ {
        Some(ImageType::ColorCode)
    } else if k == "uri"@ {
        Some(ImageType::URI)
    } else if k == "image"@ {
        Some(ImageType::RawImage)
    } else {
        None
    }
}

/// Whether a matching rule may be used with an image type.
pub open spec fn compatible(t: ImageType, p: Pattern) -> bool {
    match p {
        Pattern::Options | Pattern::Range => t == ImageType::ColorCode || t == ImageType::URI,
        Pattern::Raw => t == ImageType::RawImage || t == ImageType::URI,
    }
}

/// The matching rule named by a pattern keyword, if it is compatible with `t`.
pub open spec fn pattern_of(k: Seq<char>, t: ImageType) -> Option<Pattern> {
    let p = if k == "options"@ {
        Some(Pattern::Options)
    } else if k == "range"@ {
        Some(Pattern::Range)
    } else if k == "raw"@ {
        Some(Pattern::Raw)
    } else {
        None
    };
    match p {
        Some(p) => if compatible(t, p) {
            Some(p)
        } else {
            None
        },
        None => None,
    }
}

/// A match-table key: a number, a string, `["*"]`, or `[start, end]`.
pub open spec fn decode_key(v: JsonValue) -> Option<KeyView> {
    match v {
        JsonValue::Number(n) => Some(KeyView::Num(n)),
        JsonValue::String(s) => Some(KeyView::Str(s@)),
        JsonValue::Array(a) => {
            if a@.len() == 1 && json_text(a@[0]) == Some("*"@) {
                Some(KeyView::Any)
            } else if a@.len() == 2 && a@[0] is Number && a@[1] is Number {
                Some(KeyView::Range(a@[0]->Number_0, a@[1]->Number_0))
            } else {
                None
            }
        },
        _ => None,
    }
}

/// A match-table entry: a two-element array of a key and a content string.
pub open spec fn decode_entry(v: JsonValue) -> Option<(KeyView, Seq<char>)> {
    match v {
        JsonValue::Array(p) => {
            if p@.len() == 2 && decode_key(p@[0]) is Some && json_text(p@[1]) is Some {
                Some((decode_key(p@[0])->0, json_text(p@[1])->0))
            } else {
                None
            }
        },
        _ => None,
    }
}

/// A match table: defined when every entry is well formed, in declared order.
pub open spec fn decode_table(items: Seq<JsonValue>) -> Option<Seq<(KeyView, Seq<char>)>> {
    if forall|i: int| 0 <= i < items.len() ==> #[trigger] decode_entry(items[i]) is Some {
        Some(items.map_values(|v: JsonValue| decode_entry(v)->0))
    } else {
        None
    }
}

/// One schema row `[name, kind, trait, pattern, table?]`, checked field by
/// field in that order; the first failing check gives the error.
pub open spec fn decode_row(row: Seq<JsonValue>) -> Result<SchemaView, Error> {
    if row.len() < 4 {
        Err(Error::SchemaInsufficientElements)
    } else if json_text(row[0]) is None {
        Err(Error::SchemaInvalidName)
    } else if json_text(row[1]) is None {
        Err(Error::SchemaInvalidType)
    } else if image_type_of(json_text(row[1])->0) is None {
        Err(Error::SchemaTypeMismatch)
    } else if json_text(row[2]) is None {
        Err(Error::SchemaInvalidTraitName)
    } else if json_text(row[3]) is None {
        Err(Error::SchemaInvalidPattern)
    } else if pattern_of(json_text(row[3])->0, image_type_of(json_text(row[1])->0)->0) is None {
        Err(Error::SchemaPatternMismatch)
    } else {
        let entry = SchemaView {
            name: json_text(row[0])->0,
            type_: image_type_of(json_text(row[1])->0)->0,
            dob0_trait: json_text(row[2])->0,
            pattern: pattern_of(json_text(row[3])->0, image_type_of(json_text(row[1])->0)->0)->0,
            args: None,
        };
        if row.len() == 4 {
            Ok(entry)
        } else {
            match row[4] {
                JsonValue::Array(items) => match decode_table(items@) {
                    Some(t) => Ok(SchemaView { args: Some(t), ..entry }),
                    None => Err(Error::SchemaInvalidArgsElement),
                },
                _ => Err(Error::SchemaInvalidArgs),
            }
        }
    }
}

/// A list of rows: every row decoded in order, or the error of the first
/// row that fails.
pub open spec fn decode_schema(rows: Seq<Seq<JsonValue>>) -> Result<Seq<SchemaView>, Error>
    decreases rows.len(),
{
    if rows.len() == 0 {
        Ok(Seq::empty())
    } else {
        match decode_schema(rows.drop_last()) {
            Err(e) => Err(e),
            Ok(es) => match decode_row(rows.last()) {
                Err(e) => Err(e),
                Ok(e) => Ok(es.push(e)),
            },
        }
    }
}

/// The views of the rows handed to the decoder.
pub open spec fn rows_view(rows: Seq<Vec<JsonValue>>) -> Seq<Seq<JsonValue>> {
    rows.map_values(|r: Vec<JsonValue>| r@)
}

fn text_is(s: &String, k: &str) -> (r: bool)
    ensures
        r == (s@ == k@),
{
    let expected = k.to_owned();
    *s == expected
}

fn decode_key_exec(v: &JsonValue) -> (r: Option<DOB0TraitValue>)
    ensures
        match r {
            Some(k) => decode_key(*v) == Some(k@),
            None => decode_key(*v) is None,
        },
{
    match v {
        JsonValue::Number(n) => Some(DOB0TraitValue::Number(*n)),
        JsonValue::String(s) => Some(DOB0TraitValue::String(s.clone())),
        JsonValue::Array(a) => {
            if a.len() == 1 {
                if let JsonValue::String(s) = &a[0] {
                    if text_is(s, "*") {
                        return Some(DOB0TraitValue::Any);
                    }
                }
                None
            } else if a.len() == 2 {
                match (&a[0], &a[1]) {
                    (JsonValue::Number(start), JsonValue::Number(end)) => Some(
                        DOB0TraitValue::Range(*start, *end),
                    ),
                    _ => None,
                }
            } else {
                None
            }
        },
        _ => None,
    }
}

fn decode_entry_exec(v: &JsonValue) -> (r: Option<(DOB0TraitValue, String)>)
    ensures
        match r {
            Some(p) => decode_entry(*v) == Some((p.0@, p.1@)),
            None => decode_entry(*v) is None,
        },
{
    if let JsonValue::Array(p) = v {
        if p.len() == 2 {
            if let Some(key) = decode_key_exec(&p[0]) {
                if let JsonValue::String(content) = &p[1] {
                    return Some((key, content.clone()));
                }
            }
        }
    }
    None
}

fn decode_table_exec(items: &Vec<JsonValue>) -> (r: Option<Vec<(DOB0TraitValue, String)>>)
    ensures
        match r {
            Some(t) => decode_table(items@) == Some(super::types::table_view(t@)),
            None => decode_table(items@) is None,
        },
{
    let mut table: Vec<(DOB0TraitValue, String)> = Vec::new();
    let mut i: usize = 0;
    while i < items.len()
        invariant
            i <= items@.len(),
            table@.len() == i,
            forall|j: int| 0 <= j < i ==> #[trigger] decode_entry(items@[j]) is Some,
            forall|j: int|
                0 <= j < i ==> decode_entry(items@[j]) == Some(
                    (#[trigger] table@[j].0@, table@[j].1@),
                ),
        decreases items@.len() - i,
    {
        match decode_entry_exec(&items[i]) {
            Some(p) => table.push(p),
            None => {
                return None;
            },
        }
        i += 1;
    }
    assert(decode_table(items@) == Some(super::types::table_view(table@)));
    Some(table)
}

fn decode_row_exec(row: &Vec<JsonValue>) -> (r: Result<TraitSchema, Error>)
    ensures
        match decode_row(row@) {
            Ok(e) => r matches Ok(x) && x@ == e,
            Err(e) => r == Err::<TraitSchema, Error>(e),
        },
{
    if row.len() < 4 {
        return Err(Error::SchemaInsufficientElements);
    }
    let name = match &row[0] {
        JsonValue::String(s) => s,
        _ => return Err(Error::SchemaInvalidName),
    };
    let type_ = match &row[1] {
        JsonValue::String(s) => {
            if text_is(s, "color") {
                ImageType::ColorCode
            } else if text_is(s, "uri") {
                ImageType::URI
            } else if text_is(s, "image") {
                ImageType::RawImage
            } else {
                return Err(Error::SchemaTypeMismatch);
            }
        },
        _ => return Err(Error::SchemaInvalidType),
    };
    let dob0_trait = match &row[2] {
        JsonValue::String(s) => s,
        _ => return Err(Error::SchemaInvalidTraitName),
    };
    let pattern = match &row[3] {
        JsonValue::String(s) => {
            let pattern = if text_is(s, "options") {
                Pattern::Options
            } else if text_is(s, "range") {
                Pattern::Range
            } else if text_is(s, "raw") {
                Pattern::Raw
            } else {
                return Err(Error::SchemaPatternMismatch);
            };
            let allowed = match pattern {
                Pattern::Options | Pattern::Range => type_ == ImageType::ColorCode || type_
                    == ImageType::URI,
                Pattern::Raw => type_ == ImageType::RawImage || type_ == ImageType::URI,
            };
            if !allowed {
                return Err(Error::SchemaPatternMismatch);
            }
            pattern
        },
        _ => return Err(Error::SchemaInvalidPattern),
    };
    let args = if row.len() > 4 {
        match &row[4] {
            JsonValue::Array(items) => match decode_table_exec(items) {
                Some(t) => Some(t),
                None => return Err(Error::SchemaInvalidArgsElement),
            },
            _ => return Err(Error::SchemaInvalidArgs),
        }
    } else {
        None
    };
    Ok(TraitSchema { name: name.clone(), type_, dob0_trait: dob0_trait.clone(), pattern, args })
}

/// Decodes schema rows into typed entries, in row order.
///
/// Succeeds exactly when every row is well formed; otherwise returns the
/// error of the first row that is not.
pub fn decode_trait_schema(traits_pool: Vec<Vec<JsonValue>>) -> (r: Result<Vec<TraitSchema>, Error>)
    ensures
        match decode_schema(rows_view(traits_pool@)) {
            Ok(es) => r matches Ok(v) && schemas_view(v@) == es,
            Err(e) => r == Err::<Vec<TraitSchema>, Error>(e),
        },
{
    let ghost rows = rows_view(traits_pool@);
    let mut entries: Vec<TraitSchema> = Vec::new();
    let mut i: usize = 0;
    assert(rows.take(0) =~= Seq::<Seq<JsonValue>>::empty());
    assert(schemas_view(entries@) =~= Seq::<SchemaView>::empty());
    while i < traits_pool.len()
        invariant
            i <= traits_pool@.len(),
            rows == rows_view(traits_pool@),
            decode_schema(rows.take(i as int)) == Ok::<Seq<SchemaView>, Error>(
                schemas_view(entries@),
            ),
        decreases traits_pool@.len() - i,
    {
        assert(rows.take(i + 1).drop_last() =~= rows.take(i as int));
        assert(rows.take(i + 1).last() == traits_pool@[i as int]@);
        match decode_row_exec(&traits_pool[i]) {
            Ok(e) => {
                let ghost before = entries@;
                let ghost ev = e@;
                entries.push(e);
                assert(schemas_view(entries@) =~= schemas_view(before).push(ev));
            },
            Err(e) => {
                proof {
                    lemma_schema_error_persists(rows, i + 1);
                }
                return Err(e);
            },
        }
        i += 1;
    }
    assert(rows.take(i as int) =~= rows);
    Ok(entries)
}

/// An error in a prefix of the rows is the error of all of them.
proof fn lemma_schema_error_persists(rows: Seq<Seq<JsonValue>>, n: int)
    requires
        0 <= n <= rows.len(),
        decode_schema(rows.take(n)) is Err,
    ensures
        decode_schema(rows) == decode_schema(rows.take(n)),
    decreases rows.len() - n,
{
    if n < rows.len() {
        assert(rows.take(n + 1).drop_last() =~= rows.take(n));
        lemma_schema_error_persists(rows, n + 1);
    } else {
        assert(rows.take(n) =~= rows);
    }
}

/// The keyword that names an image type.
pub open spec fn type_keyword(t: ImageType) -> Seq<char> {
    match t {
        ImageType::ColorCode => "color"@,
        ImageType::URI => "uri"@,
        ImageType::RawImage => "image"@,
    }
}

/// The keyword that names a matching rule.
pub open spec fn pattern_keyword(p: Pattern) -> Seq<char> {
    match p {
        Pattern::Options => "options"@,
        Pattern::Range => "range"@,
        Pattern::Raw => "raw"@,
    }
}

/// `v` is the JSON form of the key `k`.
pub open spec fn encodes_key(v: JsonValue, k: KeyView) -> bool {
    match k {
        KeyView::Num(n) => v == JsonValue::Number(n),
        KeyView::Str(s) => json_text(v) == Some(s),
        KeyView::Range(start, end) => v matches JsonValue::Array(a) && a@.len() == 2 && a@[0]
            == JsonValue::Number(start) && a@[1] == JsonValue::Number(end),
        KeyView::Any => v matches JsonValue::Array(a) && a@.len() == 1 && json_text(a@[0]) == Some(
            "*"@,
        ),
    }
}

/// `v` is the JSON form of the table entry `p`.
pub open spec fn encodes_entry(v: JsonValue, p: (KeyView, Seq<char>)) -> bool {
    v matches JsonValue::Array(a) && a@.len() == 2 && encodes_key(a@[0], p.0) && json_text(a@[1])
        == Some(p.1)
}

/// `row` is the row form of the schema entry `e`.
pub open spec fn encodes_row(row: Seq<JsonValue>, e: SchemaView) -> bool {
    &&& row.len() == if e.args is Some {
        5int
    } else {
        4int
    }
    &&& json_text(row[0]) == Some(e.name)
    &&& json_text(row[1]) == Some(type_keyword(e.type_))
    &&& json_text(row[2]) == Some(e.dob0_trait)
    &&& json_text(row[3]) == Some(pattern_keyword(e.pattern))
    &&& e.args matches Some(t) ==> row[4] matches JsonValue::Array(items) && items@.len() == t.len()
        && forall|i: int| 0 <= i < t.len() ==> #[trigger] encodes_entry(items@[i], t[i])
}

/// An entry whose matching rule is allowed for its image type.
pub open spec fn well_formed(e: SchemaView) -> bool {
    compatible(e.type_, e.pattern)
}

fn key_to_json(k: &DOB0TraitValue) -> (r: JsonValue)
    ensures
        encodes_key(r, k@),
{
    match k {
        DOB0TraitValue::String(s) => JsonValue::String(s.clone()),
        DOB0TraitValue::Number(n) => JsonValue::Number(*n),
        DOB0TraitValue::Range(start, end) => {
            let mut a: Vec<JsonValue> = Vec::new();
            a.push(JsonValue::Number(*start));
            a.push(JsonValue::Number(*end));
            JsonValue::Array(a)
        },
        DOB0TraitValue::Any => {
            let mut a: Vec<JsonValue> = Vec::new();
            a.push(JsonValue::String("*".to_owned()));
            JsonValue::Array(a)
        },
    }
}

impl TraitSchema {
    /// A schema entry with the given fields.
    pub fn new(
        name: &str,
        type_: ImageType,
        dob0_trait: &str,
        pattern: Pattern,
        args: Option<Vec<(DOB0TraitValue, String)>>,
    ) -> (r: TraitSchema)
        ensures
            r.name@ == name@,
            r.type_ == type_,
            r.dob0_trait@ == dob0_trait@,
            r.pattern == pattern,
            r.args == args,
    {
        TraitSchema {
            name: name.to_owned(),
            type_,
            dob0_trait: dob0_trait.to_owned(),
            pattern,
            args,
        }
    }

    /// The row form of this entry: `[name, kind, trait, pattern]`, followed
    /// by the match table when there is one.
    pub fn encode(&self) -> (r: Vec<JsonValue>)
        ensures
            encodes_row(r@, self@),
    {
        let mut values: Vec<JsonValue> = Vec::new();
        values.push(JsonValue::String(self.name.clone()));
        let kind = match self.type_ {
            ImageType::ColorCode => "color".to_owned(),
            ImageType::URI => "uri".to_owned(),
            ImageType::RawImage => "image".to_owned(),
        };
        values.push(JsonValue::String(kind));
        values.push(JsonValue::String(self.dob0_trait.clone()));
        let pattern = match self.pattern {
            Pattern::Options => "options".to_owned(),
            Pattern::Range => "range".to_owned(),
            Pattern::Raw => "raw".to_owned(),
        };
        values.push(JsonValue::String(pattern));
        if let Some(args) = &self.args {
            let ghost t = super::types::table_view(args@);
            let mut items: Vec<JsonValue> = Vec::new();
            let mut i: usize = 0;
            while i < args.len()
                invariant
                    i <= args@.len(),
                    t == super::types::table_view(args@),
                    items@.len() == i,
                    forall|j: int| 0 <= j < i ==> #[trigger] encodes_entry(items@[j], t[j]),
                decreases args@.len() - i,
            {
                let (key, content) = &args[i];
                let mut pair: Vec<JsonValue> = Vec::new();
                pair.push(key_to_json(key));
                pair.push(JsonValue::String(content.clone()));
                items.push(JsonValue::Array(pair));
                i += 1;
            }
            values.push(JsonValue::Array(items));
        }
        values
    }
}

proof fn lemma_keywords_distinct()
    ensures
        "color"@ != "uri"@,
        "color"@ != "image"@,
        "uri"@ != "image"@,
        "options"@ != "range"@,
        "options"@ != "raw"@,
        "range"@ != "raw"@,
{
    reveal_strlit("color");
    reveal_strlit("uri");
    reveal_strlit("image");
    reveal_strlit("options");
    reveal_strlit("range");
    reveal_strlit("raw");
    assert("color"@.len() != "uri"@.len());
    assert("color"@[0] != "image"@[0]);
    assert("uri"@.len() != "image"@.len());
    assert("options"@.len() != "range"@.len());
    assert("options"@.len() != "raw"@.len());
    assert("range"@.len() != "raw"@.len());
}

proof fn lemma_decode_encoded_entry(v: JsonValue, p: (KeyView, Seq<char>))
    requires
        encodes_entry(v, p),
    ensures
        decode_entry(v) == Some(p),
{
    let a = v->Array_0;
    match p.0 {
        KeyView::Range(start, end) => {
            let r = a@[0]->Array_0;
            assert(r@.len() == 2);
        },
        _ => {},
    }
    assert(decode_key(a@[0]) == Some(p.0));
}

/// A well-formed entry written as a row decodes back to the same entry.
pub proof fn lemma_entry_round_trip(row: Seq<JsonValue>, e: SchemaView)
    requires
        well_formed(e),
        encodes_row(row, e),
    ensures
        decode_row(row) == Ok::<SchemaView, Error>(e),
{
    lemma_keywords_distinct();
    assert(image_type_of(type_keyword(e.type_)) == Some(e.type_));
    assert(pattern_of(pattern_keyword(e.pattern), e.type_) == Some(e.pattern));
    if let Some(t) = e.args {
        let items = row[4]->Array_0;
        assert forall|i: int| 0 <= i < items@.len() implies #[trigger] decode_entry(items@[i])
            == Some(t[i]) by {
            assert(encodes_entry(items@[i], t[i]));
            lemma_decode_encoded_entry(items@[i], t[i]);
        }
        assert(items@.map_values(|v: JsonValue| decode_entry(v)->0) =~= t);
        assert(decode_table(items@) == Some(t));
    }
}

/// Every entry that a row decodes to is well formed.
pub proof fn lemma_decoded_well_formed(row: Seq<JsonValue>)
    requires
        decode_row(row) is Ok,
    ensures
        well_formed(decode_row(row)->Ok_0),
{
}

/// A list of rows decodes when each row does, to the entries of the rows.
proof fn lemma_decode_schema_rows(rows: Seq<Seq<JsonValue>>)
    ensures
        decode_schema(rows) is Ok <==> forall|i: int|
            0 <= i < rows.len() ==> #[trigger] decode_row(rows[i]) is Ok,
        decode_schema(rows) is Ok ==> {
            &&& decode_schema(rows)->Ok_0.len() == rows.len()
            &&& forall|i: int|
                0 <= i < rows.len() ==> #[trigger] decode_row(rows[i]) == Ok::<SchemaView, Error>(
                    decode_schema(rows)->Ok_0[i],
                )
        },
    decreases rows.len(),
{
    if rows.len() > 0 {
        let init = rows.drop_last();
        lemma_decode_schema_rows(init);
        if decode_schema(rows) is Ok {
            let es = decode_schema(rows)->Ok_0;
            let es_init = decode_schema(init)->Ok_0;
            assert(es == es_init.push(decode_row(rows.last())->Ok_0));
            assert forall|i: int| 0 <= i < rows.len() implies #[trigger] decode_row(rows[i])
                == Ok::<SchemaView, Error>(es[i]) by {
                if i < rows.len() - 1 {
                    assert(init[i] == rows[i]);
                    assert(es[i] == es_init[i]);
                }
            }
        }
        if forall|i: int| 0 <= i < rows.len() ==> #[trigger] decode_row(rows[i]) is Ok {
            assert forall|i: int| 0 <= i < init.len() implies #[trigger] decode_row(init[i]) is Ok by {
                assert(init[i] == rows[i]);
                assert(decode_row(rows[i]) is Ok);
            }
            assert(decode_row(rows[rows.len() - 1]) is Ok);
        }
    }
}

/// Decoding a list of rows, writing each decoded entry back as a row and
/// decoding that list again gives the same entries, in the same order:
/// names, kinds, traits, patterns and match tables all survive.
pub proof fn lemma_schema_round_trip(
    rows: Seq<Seq<JsonValue>>,
    entries: Seq<SchemaView>,
    encoded: Seq<Seq<JsonValue>>,
)
    requires
        decode_schema(rows) == Ok::<Seq<SchemaView>, Error>(entries),
        encoded.len() == entries.len(),
        forall|i: int| 0 <= i < entries.len() ==> #[trigger] encodes_row(encoded[i], entries[i]),
    ensures
        decode_schema(encoded) == Ok::<Seq<SchemaView>, Error>(entries),
{
    lemma_decode_schema_rows(rows);
    lemma_decode_schema_rows(encoded);
    assert forall|i: int| 0 <= i < encoded.len() implies #[trigger] decode_row(encoded[i])
        == Ok::<SchemaView, Error>(entries[i]) by {
        assert(decode_row(rows[i]) == Ok::<SchemaView, Error>(entries[i]));
        lemma_decoded_well_formed(rows[i]);
        assert(encodes_row(encoded[i], entries[i]));
        lemma_entry_round_trip(encoded[i], entries[i]);
    }
    assert(forall|i: int| 0 <= i < encoded.len() ==> #[trigger] decode_row(encoded[i]) is Ok);
    assert(decode_schema(encoded) is Ok);
    let ds = decode_schema(encoded)->Ok_0;
    assert forall|i: int| 0 <= i < entries.len() implies ds[i] == entries[i] by {
        assert(decode_row(encoded[i]) == Ok::<SchemaView, Error>(ds[i]));
    }
    assert(ds =~= entries);
}

} // verus!
