//! Resolving a trait by name and selecting a layer's content by its rule.
use vstd::prelude::*;

use super::types::{
    outputs_view, table_view, DOB0Output, DOB0TraitValue, Error, KeyView, OutputView,
    ParsedTrait, Pattern, ScalarView,
};

verus! {

/// The value a trait name resolves to: the first value of the first output
/// with that name, if that output has any value.
pub open spec fn resolve(name: Seq<char>, outs: Seq<OutputView>) -> Option<ScalarView>
    decreases outs.len(),
{
    if outs.len() == 0 {
        None
    } else if outs[0].name == name {
        if outs[0].traits.len() > 0 {
            Some(outs[0].traits[0])
        } else {
            None
        }
    } else {
        resolve(name, outs.drop_first())
    }
}

/// Whether one key matches a resolved value; a key whose scalar kind
/// differs from the value's is an error.
pub open spec fn key_matches(k: KeyView, v: ScalarView) -> Result<bool, Error> {
    match k {
        KeyView::Num(n) => match v {
            ScalarView::Num(m) => Ok(m == n),
            ScalarView::Str(_) => Err(Error::SchemaInvalidParsedTraitType),
        },
        KeyView::Str(s) => match v {
            ScalarView::Str(t) => Ok(t == s),
            ScalarView::Num(_) => Err(Error::SchemaInvalidParsedTraitType),
        },
        KeyView::Range(start, end) => match v {
            ScalarView::Num(m) => Ok(start <= m && m <= end),
            ScalarView::Str(_) => Err(Error::SchemaInvalidParsedTraitType),
        },
        KeyView::Any => Ok(true),
    }
}

/// The content of the first key, in declared order, that matches `v`;
/// `None` when no key does; the error of the first key whose kind differs
/// from the value's, met before any match.
pub open spec fn match_table(t: Seq<(KeyView, Seq<char>)>, v: ScalarView) -> Result<
    Option<Seq<char>>,
    Error,
>
    decreases t.len(),
{
    if t.len() == 0 {
        Ok(None)
    } else {
        match key_matches(t[0].0, v) {
            Err(e) => Err(e),
            Ok(true) => Ok(Some(t[0].1)),
            Ok(false) => match_table(t.drop_first(), v),
        }
    }
}

/// What a layer's matching rule selects for a resolved value.
pub open spec fn select(p: Pattern, t: Option<Seq<(KeyView, Seq<char>)>>, v: ScalarView) -> Result<
    Option<Seq<char>>,
    Error,
> {
    match p {
        Pattern::Raw => match v {
            ScalarView::Str(s) => Ok(Some(s)),
            ScalarView::Num(_) => Err(Error::DecodeInvalidRawValue),
        },
        Pattern::Options | Pattern::Range => match t {
            Some(t) => match_table(t, v),
            None => Err(Error::DecodeInvalidOptionArgs),
        },
    }
}

/// Looks up the value of the trait `trait_name`: the first value of the
/// first output of that name.
pub fn get_dob0_value_by_name(trait_name: &str, dob0_output: &[DOB0Output]) -> (r: Option<
    ParsedTrait,
>)
    ensures
        match resolve(trait_name@, outputs_view(dob0_output@)) {
            Some(v) => r matches Some(x) && x@ == v,
            None => r is None,
        },
{
    let ghost outs = outputs_view(dob0_output@);
    let name = trait_name.to_owned();
    let mut i: usize = 0;
    assert(outs.skip(0) =~= outs);
    while i < dob0_output.len()
        invariant
            i <= dob0_output@.len(),
            outs == outputs_view(dob0_output@),
            name@ == trait_name@,
            resolve(trait_name@, outs) == resolve(trait_name@, outs.skip(i as int)),
        decreases dob0_output@.len() - i,
    {
        let output = &dob0_output[i];
        assert(outs.skip(i as int)[0] == output@);
        if output.name == name {
            if output.traits.len() > 0 {
                let value = match &output.traits[0] {
                    ParsedTrait::String(s) => ParsedTrait::String(s.clone()),
                    ParsedTrait::Number(n) => ParsedTrait::Number(*n),
                };
                return Some(value);
            }
            return None;
        }
        assert(outs.skip(i as int).drop_first() =~= outs.skip(i + 1));
        i += 1;
    }
    None
}

/// Selects the content of the first key of `args`, in declared order, that
/// matches `dob0_value`.
pub fn get_dob1_value_by_dob0_value(
    args: &Vec<(DOB0TraitValue, String)>,
    dob0_value: ParsedTrait,
) -> (r: Result<Option<String>, Error>)
    ensures
        match match_table(table_view(args@), dob0_value@) {
            Ok(Some(c)) => r matches Ok(Some(x)) && x@ == c,
            Ok(None) => r matches Ok(None),
            Err(e) => r == Err::<Option<String>, Error>(e),
        },
{
    let ghost t = table_view(args@);
    let mut i: usize = 0;
    assert(t.skip(0) =~= t);
    while i < args.len()
        invariant
            i <= args@.len(),
            t == table_view(args@),
            match_table(t, dob0_value@) == match_table(t.skip(i as int), dob0_value@),
        decreases args@.len() - i,
    {
        let (key, value) = &args[i];
        assert(t.skip(i as int)[0] == (key@, value@));
        assert(t.skip(i as int).drop_first() =~= t.skip(i + 1));
        match key {
            DOB0TraitValue::Number(number) => {
                let dob0_number = dob0_value.get_number()?;
                if dob0_number == *number {
                    return Ok(Some(value.clone()));
                }
            },
            DOB0TraitValue::String(string) => {
                let dob0_string = dob0_value.get_string()?;
                if *dob0_string == *string {
                    return Ok(Some(value.clone()));
                }
            },
            DOB0TraitValue::Range(start, end) => {
                let dob0_number = dob0_value.get_number()?;
                if *start <= dob0_number && dob0_number <= *end {
                    return Ok(Some(value.clone()));
                }
            },
            DOB0TraitValue::Any => {
                return Ok(Some(value.clone()));
            },
        }
        i += 1;
    }
    Ok(None)
}

/// Applies a layer's matching rule to a resolved value: `Raw` passes a
/// string through and rejects a number; `Options` and `Range` look the
/// value up in the match table, which they require.
pub fn match_value(
    pattern: Pattern,
    args: &Option<Vec<(DOB0TraitValue, String)>>,
    value: ParsedTrait,
) -> (r: Result<Option<String>, Error>)
    ensures
        match select(
            pattern,
            match args {
                Some(t) => Some(table_view(t@)),
                None => None,
            },
            value@,
        ) {
            Ok(Some(c)) => r matches Ok(Some(x)) && x@ == c,
            Ok(None) => r matches Ok(None),
            Err(e) => r == Err::<Option<String>, Error>(e),
        },
        pattern == Pattern::Raw ==> match value@ {
            ScalarView::Str(s) => r matches Ok(Some(x)) && x@ == s,
            ScalarView::Num(_) => r == Err::<Option<String>, Error>(Error::DecodeInvalidRawValue),
        },
{
    match pattern {
        Pattern::Options | Pattern::Range => match args {
            Some(args) => get_dob1_value_by_dob0_value(args, value),
            None => Err(Error::DecodeInvalidOptionArgs),
        },
        Pattern::Raw => match value {
            ParsedTrait::String(s) => Ok(Some(s)),
            ParsedTrait::Number(_) => Err(Error::DecodeInvalidRawValue),
        },
    }
}

/// A range key matches a number exactly when the number lies between its
/// bounds; both bounds match.
pub proof fn lemma_range_inclusive(start: u64, end: u64, v: u64, content: Seq<char>)
    ensures
        match_table(seq![(KeyView::Range(start, end), content)], ScalarView::Num(v)) == if start
            <= v && v <= end {
            Ok::<Option<Seq<char>>, Error>(Some(content))
        } else {
            Ok::<Option<Seq<char>>, Error>(None)
        },
        start <= end ==> match_table(
            seq![(KeyView::Range(start, end), content)],
            ScalarView::Num(start),
        ) == Ok::<Option<Seq<char>>, Error>(Some(content)),
        start <= end ==> match_table(
            seq![(KeyView::Range(start, end), content)],
            ScalarView::Num(end),
        ) == Ok::<Option<Seq<char>>, Error>(Some(content)),
{
    let t = seq![(KeyView::Range(start, end), content)];
    assert(t[0] == (KeyView::Range(start, end), content));
    assert(t.drop_first().len() == 0);
    assert(match_table(t.drop_first(), ScalarView::Num(v)) == Ok::<Option<Seq<char>>, Error>(None));
}

/// A wildcard matches every value, at any position; it wins as soon as no
/// key declared before it has matched, and keys declared after it are never
/// consulted.
pub proof fn lemma_wildcard_wins(t: Seq<(KeyView, Seq<char>)>, k: int, v: ScalarView)
    requires
        0 <= k < t.len(),
        t[k].0 == KeyView::Any,
        match_table(t.take(k), v) == Ok::<Option<Seq<char>>, Error>(None),
    ensures
        key_matches(KeyView::Any, v) == Ok::<bool, Error>(true),
        match_table(t, v) == Ok::<Option<Seq<char>>, Error>(Some(t[k].1)),
    decreases k,
{
    if k > 0 {
        let head = t.take(k);
        assert(head[0] == t[0]);
        assert(head.drop_first() =~= t.drop_first().take(k - 1));
        lemma_wildcard_wins(t.drop_first(), k - 1, v);
    }
}

} // verus!
