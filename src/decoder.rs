//! The pipeline: decoded parameters in, one encoded item vector per run of
//! same-named schema entries out.
use vstd::prelude::*;

pub mod items;
pub mod matching;
pub mod schema;
pub mod types;

use items::{encode_item, encode_item_vec, item_bytes, item_vec_bytes};
use matching::{get_dob0_value_by_name, match_value, resolve, select};
use schema::{decode_schema, decode_trait_schema, rows_view};
use types::{
    outputs_view, schemas_view, DOB0Output, Error, ImageType, JsonValue, OutputView,
    Parameters, SchemaView, TraitSchema,
};

verus! {

/// The layers gathered so far for one image, and whether later entries
/// of its run may still add to them.
pub struct LayerGroup {
    pub name: Seq<char>,
    pub items: Seq<(ImageType, Seq<char>)>,
    pub open: bool,
}

/// The layer that one schema entry yields: `None` when its trait is
/// missing or no key of its table matches.
pub open spec fn layer_of(outs: Seq<OutputView>, e: SchemaView) -> Result<
    Option<(ImageType, Seq<char>)>,
    Error,
> {
    match resolve(e.dob0_trait, outs) {
        None => Ok(None),
        Some(v) => match select(e.pattern, e.args, v) {
            Err(x) => Err(x),
            Ok(None) => Ok(None),
            Ok(Some(c)) => Ok(Some((e.type_, c))),
        },
    }
}

/// Adds one entry: it joins the last group when it has the same image
/// name, else starts a new one. A group that is no longer open ignores
/// further entries; an entry that yields no layer closes its group.
pub open spec fn add_entry(gs: Seq<LayerGroup>, outs: Seq<OutputView>, e: SchemaView) -> Result<
    Seq<LayerGroup>,
    Error,
> {
    let gs = if gs.len() > 0 && gs.last().name == e.name {
        gs
    } else {
        gs.push(LayerGroup { name: e.name, items: Seq::empty(), open: true })
    };
    let g = gs.last();
    if !g.open {
        Ok(gs)
    } else {
        match layer_of(outs, e) {
            Err(x) => Err(x),
            Ok(None) => Ok(gs.update(gs.len() - 1, LayerGroup { open: false, ..g })),
            Ok(Some(item)) => Ok(
                gs.update(gs.len() - 1, LayerGroup { items: g.items.push(item), ..g }),
            ),
        }
    }
}

/// The groups of layers for a schema, entry by entry in order; the first
/// hard error aborts the whole run.
pub open spec fn layer_groups(outs: Seq<OutputView>, schema: Seq<SchemaView>) -> Result<
    Seq<LayerGroup>,
    Error,
>
    decreases schema.len(),
{
    if schema.len() == 0 {
        Ok(Seq::empty())
    } else {
        match layer_groups(outs, schema.drop_last()) {
            Err(x) => Err(x),
            Ok(gs) => add_entry(gs, outs, schema.last()),
        }
    }
}

/// The encoded items of a group, in order.
pub open spec fn group_items(g: LayerGroup) -> Seq<Seq<u8>> {
    g.items.map_values(|it: (ImageType, Seq<char>)| item_bytes(it.0, it.1))
}

/// A group as the pair of its image name and its encoded item vector.
pub open spec fn group_output(g: LayerGroup) -> (Seq<char>, Seq<u8>) {
    (g.name, item_vec_bytes(group_items(g)))
}

/// The views of the pipeline's output pairs.
pub open spec fn output_view(r: Seq<(String, Vec<u8>)>) -> Seq<(Seq<char>, Seq<u8>)> {
    r.map_values(|p: (String, Vec<u8>)| (p.0@, p.1@))
}

/// An error in the groups of a prefix of the schema is the error of all of it.
proof fn lemma_layer_error_persists(outs: Seq<OutputView>, schema: Seq<SchemaView>, n: int)
    requires
        0 <= n <= schema.len(),
        layer_groups(outs, schema.take(n)) is Err,
    ensures
        layer_groups(outs, schema) == layer_groups(outs, schema.take(n)),
    decreases schema.len() - n,
{
    if n < schema.len() {
        assert(schema.take(n + 1).drop_last() =~= schema.take(n));
        lemma_layer_error_persists(outs, schema, n + 1);
    } else {
        assert(schema.take(n) =~= schema);
    }
}

/// Entries that join a closed group leave the groups unchanged.
proof fn lemma_closed_group_ignores(
    outs: Seq<OutputView>,
    pre: Seq<SchemaView>,
    rest: Seq<SchemaView>,
    gs: Seq<LayerGroup>,
)
    requires
        layer_groups(outs, pre) == Ok::<Seq<LayerGroup>, Error>(gs),
        gs.len() > 0,
        !gs.last().open,
        forall|j: int| 0 <= j < rest.len() ==> (#[trigger] rest[j]).name == gs.last().name,
    ensures
        layer_groups(outs, pre + rest) == Ok::<Seq<LayerGroup>, Error>(gs),
    decreases rest.len(),
{
    if rest.len() == 0 {
        assert(pre + rest =~= pre);
    } else {
        let init = rest.drop_last();
        assert((pre + rest).drop_last() =~= pre + init);
        assert((pre + rest).last() == rest.last());
        assert(rest[rest.len() - 1] == rest.last());
        lemma_closed_group_ignores(outs, pre, init, gs);
    }
}

/// Splits off the first one or two entries of a run after `pre`.
proof fn lemma_layer_groups_split(outs: Seq<OutputView>, pre: Seq<SchemaView>, run: Seq<SchemaView>, n: int)
    requires
        0 <= n <= run.len(),
    ensures
        pre + run == (pre + run.take(n)) + run.skip(n),
        n > 0 ==> (pre + run.take(n)).drop_last() == pre + run.take(n - 1),
        n > 0 ==> (pre + run.take(n)).last() == run[n - 1],
{
    assert(pre + run =~= (pre + run.take(n)) + run.skip(n));
    if n > 0 {
        assert((pre + run.take(n)).drop_last() =~= pre + run.take(n - 1));
    }
}

/// When the trait of the first entry of a run of same-named entries is
/// missing, the run's image gets an empty item list, whatever follows in
/// the run.
pub proof fn lemma_missing_first_trait(
    outs: Seq<OutputView>,
    pre: Seq<SchemaView>,
    run: Seq<SchemaView>,
    gs: Seq<LayerGroup>,
)
    requires
        layer_groups(outs, pre) == Ok::<Seq<LayerGroup>, Error>(gs),
        run.len() > 0,
        gs.len() == 0 || gs.last().name != run[0].name,
        forall|j: int| 0 <= j < run.len() ==> (#[trigger] run[j]).name == run[0].name,
        resolve(run[0].dob0_trait, outs) is None,
    ensures
        layer_groups(outs, pre + run) == Ok::<Seq<LayerGroup>, Error>(
            gs.push(LayerGroup { name: run[0].name, items: Seq::empty(), open: false }),
        ),
{
    let closed = LayerGroup { name: run[0].name, items: Seq::empty(), open: false };
    lemma_layer_groups_split(outs, pre, run, 1);
    assert(run.take(0) =~= Seq::<SchemaView>::empty());
    assert(pre + run.take(0) =~= pre);
    let fresh = LayerGroup { name: run[0].name, items: Seq::empty(), open: true };
    assert(gs.push(fresh).update(gs.len() as int, closed) =~= gs.push(closed));
    assert(add_entry(gs, outs, run[0]) == Ok::<Seq<LayerGroup>, Error>(gs.push(closed)));
    assert(layer_groups(outs, pre + run.take(1)) == Ok::<Seq<LayerGroup>, Error>(gs.push(closed)));
    let rest = run.skip(1);
    assert forall|j: int| 0 <= j < rest.len() implies (#[trigger] rest[j]).name == gs.push(
        closed,
    ).last().name by {
        assert(rest[j] == run[j + 1]);
    }
    lemma_closed_group_ignores(outs, pre + run.take(1), rest, gs.push(closed));
}

/// When the trait of the second entry of a run of same-named entries is
/// missing, the run's image gets exactly the first entry's item.
pub proof fn lemma_missing_second_trait(
    outs: Seq<OutputView>,
    pre: Seq<SchemaView>,
    run: Seq<SchemaView>,
    gs: Seq<LayerGroup>,
    item: (ImageType, Seq<char>),
)
    requires
        layer_groups(outs, pre) == Ok::<Seq<LayerGroup>, Error>(gs),
        run.len() > 1,
        gs.len() == 0 || gs.last().name != run[0].name,
        forall|j: int| 0 <= j < run.len() ==> (#[trigger] run[j]).name == run[0].name,
        layer_of(outs, run[0]) == Ok::<Option<(ImageType, Seq<char>)>, Error>(Some(item)),
        resolve(run[1].dob0_trait, outs) is None,
    ensures
        layer_groups(outs, pre + run) == Ok::<Seq<LayerGroup>, Error>(
            gs.push(LayerGroup { name: run[0].name, items: seq![item], open: false }),
        ),
{
    let opened = LayerGroup { name: run[0].name, items: seq![item], open: true };
    let closed = LayerGroup { name: run[0].name, items: seq![item], open: false };
    lemma_layer_groups_split(outs, pre, run, 1);
    lemma_layer_groups_split(outs, pre, run, 2);
    assert(run.take(0) =~= Seq::<SchemaView>::empty());
    assert(pre + run.take(0) =~= pre);
    assert(Seq::<(ImageType, Seq<char>)>::empty().push(item) =~= seq![item]);
    let fresh = LayerGroup { name: run[0].name, items: Seq::empty(), open: true };
    assert(gs.push(fresh).update(gs.len() as int, opened) =~= gs.push(opened));
    assert(add_entry(gs, outs, run[0]) == Ok::<Seq<LayerGroup>, Error>(gs.push(opened)));
    assert(layer_groups(outs, pre + run.take(1)) == Ok::<Seq<LayerGroup>, Error>(gs.push(opened)));
    assert(gs.push(opened).update(gs.len() as int, closed) =~= gs.push(closed));
    assert(add_entry(gs.push(opened), outs, run[1]) == Ok::<Seq<LayerGroup>, Error>(gs.push(closed)));
    assert(layer_groups(outs, pre + run.take(2)) == Ok::<Seq<LayerGroup>, Error>(gs.push(closed)));
    let rest = run.skip(2);
    assert forall|j: int| 0 <= j < rest.len() implies (#[trigger] rest[j]).name == gs.push(
        closed,
    ).last().name by {
        assert(rest[j] == run[j + 2]);
    }
    lemma_closed_group_ignores(outs, pre + run.take(2), rest, gs.push(closed));
}

/// Builds the pipeline input from the two decoded argument buffers.
///
/// `arg_count` is the number of buffers given; `dob0_output` is the first
/// buffer read as a trait list (`None` when it is empty or not one);
/// `traits_pool` is the second read as a list of rows (`None` when it is not
/// one). The rows are then decoded as a schema.
pub fn dobs_parse_parameters(
    arg_count: usize,
    dob0_output: Option<Vec<DOB0Output>>,
    traits_pool: Option<Vec<Vec<JsonValue>>>,
) -> (r: Result<Parameters, Error>)
    ensures
        arg_count != 2 ==> r == Err::<Parameters, Error>(Error::ParseInvalidArgCount),
        arg_count == 2 && dob0_output is None ==> r == Err::<Parameters, Error>(
            Error::ParseInvalidDOB0Output,
        ),
        arg_count == 2 && dob0_output is Some && traits_pool is None ==> r == Err::<
            Parameters,
            Error,
        >(Error::ParseInvalidTraitsBase),
        arg_count == 2 && dob0_output is Some && traits_pool is Some ==> match decode_schema(
            rows_view(traits_pool->0@),
        ) {
            Ok(es) => r matches Ok(p) && p.dob0_output == dob0_output->0 && schemas_view(
                p.images_base@,
            ) == es,
            Err(e) => r == Err::<Parameters, Error>(e),
        },
{
    if arg_count != 2 {
        return Err(Error::ParseInvalidArgCount);
    }
    let dob0_output = match dob0_output {
        Some(v) => v,
        None => return Err(Error::ParseInvalidDOB0Output),
    };
    let traits_pool = match traits_pool {
        Some(v) => v,
        None => return Err(Error::ParseInvalidTraitsBase),
    };
    let images_base = decode_trait_schema(traits_pool)?;
    Ok(Parameters { dob0_output, images_base })
}

/// The layer of one schema entry: resolves its trait and applies its rule.
fn make_layer(dob0_output: &Vec<DOB0Output>, image: &TraitSchema) -> (r: Result<
    Option<String>,
    Error,
>)
    ensures
        match layer_of(outputs_view(dob0_output@), image@) {
            Ok(Some(l)) => r matches Ok(Some(c)) && l == (image.type_, c@),
            Ok(None) => r matches Ok(None),
            Err(x) => r == Err::<Option<String>, Error>(x),
        },
{
    match get_dob0_value_by_name(image.dob0_trait.as_str(), dob0_output.as_slice()) {
        None => Ok(None),
        Some(v) => match_value(image.pattern, &image.args, v),
    }
}

/// The output built so far: the finished images and the one in progress.
struct GroupBuilder {
    done: Vec<(String, Vec<u8>)>,
    name: String,
    items: Vec<Vec<u8>>,
    open: bool,
    started: bool,
}

impl GroupBuilder {
    /// The builder holds `groups`: all but the last are finished, the last
    /// is in progress.
    spec fn holds(&self, groups: Seq<LayerGroup>) -> bool {
        &&& self.started == (groups.len() > 0)
        &&& groups.len() == 0 ==> self.done@.len() == 0
        &&& groups.len() > 0 ==> {
            &&& output_view(self.done@) == groups.drop_last().map_values(
                |g: LayerGroup| group_output(g),
            )
            &&& self.name@ == groups.last().name
            &&& self.items@.map_values(|v: Vec<u8>| v@) == group_items(groups.last())
            &&& self.open == groups.last().open
        }
    }

    fn new() -> (b: GroupBuilder)
        ensures
            b.holds(Seq::empty()),
    {
        GroupBuilder {
            done: Vec::new(),
            name: String::new(),
            items: Vec::new(),
            open: false,
            started: false,
        }
    }

    /// Finishes the image in progress, if any, and starts one named `name`.
    fn start(&mut self, name: &String, Ghost(groups): Ghost<Seq<LayerGroup>>)
        requires
            old(self).holds(groups),
        ensures
            final(self).holds(
                groups.push(LayerGroup { name: name@, items: Seq::empty(), open: true }),
            ),
    {
        if self.started {
            let encoded = encode_item_vec(&self.items);
            let finished = self.name.clone();
            let ghost before = self.done@;
            self.done.push((finished, encoded));
            assert(output_view(self.done@) =~= output_view(before).push(group_output(groups.last())));
            assert(groups.drop_last().push(groups.last()) =~= groups);
            assert(output_view(self.done@) =~= groups.map_values(|g: LayerGroup| group_output(g)));
        } else {
            assert(output_view(self.done@) =~= groups.map_values(|g: LayerGroup| group_output(g)));
        }
        self.name = name.clone();
        self.items = Vec::new();
        self.open = true;
        self.started = true;
        proof {
            let fresh = LayerGroup { name: name@, items: Seq::empty(), open: true };
            assert(groups.push(fresh).drop_last() =~= groups);
            assert(self.items@.map_values(|v: Vec<u8>| v@) =~= group_items(fresh));
        }
    }

    /// Adds one schema entry, as `add_entry` describes.
    fn add(
        &mut self,
        dob0_output: &Vec<DOB0Output>,
        image: &TraitSchema,
        Ghost(groups): Ghost<Seq<LayerGroup>>,
    ) -> (r: Result<(), Error>)
        requires
            old(self).holds(groups),
        ensures
            match add_entry(groups, outputs_view(dob0_output@), image@) {
                Ok(gs) => r is Ok && final(self).holds(gs),
                Err(x) => r == Err::<(), Error>(x),
            },
    {
        let ghost e = image@;
        let ghost gs1 = if groups.len() > 0 && groups.last().name == e.name {
            groups
        } else {
            groups.push(LayerGroup { name: e.name, items: Seq::empty(), open: true })
        };
        if !self.started || !(image.name == self.name) {
            self.start(&image.name, Ghost(groups));
        }
        assert(self.holds(gs1));
        if !self.open {
            return Ok(());
        }
        let ghost g = gs1.last();
        match make_layer(dob0_output, image) {
            Err(x) => Err(x),
            Ok(None) => {
                self.open = false;
                proof {
                    let gs2 = gs1.update(gs1.len() - 1, LayerGroup { open: false, ..g });
                    assert(gs2.drop_last() =~= gs1.drop_last());
                }
                Ok(())
            },
            Ok(Some(content)) => {
                let item = encode_item(image.type_, &content);
                let ghost before = self.items@;
                self.items.push(item);
                assert(self.items@.map_values(|v: Vec<u8>| v@) =~= before.map_values(
                    |v: Vec<u8>| v@,
                ).push(item_bytes(e.type_, content@)));
                proof {
                    let gs2 = gs1.update(
                        gs1.len() - 1,
                        LayerGroup { items: g.items.push((e.type_, content@)), ..g },
                    );
                    assert(gs2.drop_last() =~= gs1.drop_last());
                    assert(self.items@.map_values(|v: Vec<u8>| v@) =~= group_items(gs2.last()));
                }
                Ok(())
            },
        }
    }

    /// The output pairs of all images, the one in progress included.
    fn finish(self, Ghost(groups): Ghost<Seq<LayerGroup>>) -> (r: Vec<(String, Vec<u8>)>)
        requires
            self.holds(groups),
        ensures
            output_view(r@) == groups.map_values(|g: LayerGroup| group_output(g)),
    {
        let mut done = self.done;
        if self.started {
            let encoded = encode_item_vec(&self.items);
            let ghost before = done@;
            done.push((self.name, encoded));
            assert(output_view(done@) =~= output_view(before).push(group_output(groups.last())));
            assert(groups.drop_last().push(groups.last()) =~= groups);
        } else {
            assert(output_view(done@) =~= groups.map_values(|g: LayerGroup| group_output(g)));
        }
        done
    }
}

/// Resolves and matches every layer of the schema and encodes, for each
/// run of entries that share an image name, the item vector of that image.
///
/// Within a run, the first entry whose trait is missing or whose value
/// matches no key ends the run's item list; a hard matching error aborts
/// the whole call.
pub fn dobs_parse_syscall_parameters(parameters: &Parameters) -> (r: Result<
    Vec<(String, Vec<u8>)>,
    Error,
>)
    ensures
        match layer_groups(
            outputs_view(parameters.dob0_output@),
            schemas_view(parameters.images_base@),
        ) {
            Ok(gs) => r matches Ok(v) && output_view(v@) == gs.map_values(
                |g: LayerGroup| group_output(g),
            ),
            Err(e) => r == Err::<Vec<(String, Vec<u8>)>, Error>(e),
        },
{
    let dob0_output = &parameters.dob0_output;
    let images_base = &parameters.images_base;
    let ghost outs = outputs_view(dob0_output@);
    let ghost schema = schemas_view(images_base@);
    let ghost mut groups: Seq<LayerGroup> = Seq::empty();
    let mut builder = GroupBuilder::new();
    let mut i: usize = 0;
    assert(schema.take(0) =~= Seq::<SchemaView>::empty());
    while i < images_base.len()
        invariant
            i <= images_base@.len(),
            outs == outputs_view(dob0_output@),
            schema == schemas_view(images_base@),
            dob0_output@ == parameters.dob0_output@,
            images_base@ == parameters.images_base@,
            layer_groups(outs, schema.take(i as int)) == Ok::<Seq<LayerGroup>, Error>(groups),
            builder.holds(groups),
        decreases images_base@.len() - i,
    {
        let image = &images_base[i];
        assert(schema.take(i + 1).drop_last() =~= schema.take(i as int));
        assert(schema.take(i + 1).last() == image@);
        let ghost next = add_entry(groups, outs, image@);
        assert(layer_groups(outs, schema.take(i + 1)) == next);
        match builder.add(dob0_output, image, Ghost(groups)) {
            Ok(()) => {
                proof {
                    groups = next->Ok_0;
                }
            },
            Err(x) => {
                proof {
                    lemma_layer_error_persists(outs, schema, i + 1);
                }
                return Err(x);
            },
        }
        i += 1;
    }
    assert(schema.take(i as int) =~= schema);
    Ok(builder.finish(Ghost(groups)))
}

} // verus!
