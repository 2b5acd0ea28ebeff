//! Handing a finished run's products out: to a place that the user agreed to before, or to a
//! folder picked just now. Never to an address that came with the request.

use vstd::prelude::*;
use vstd::string::*;

use crate::flow::graph::Text;
use crate::flow::runner::{shots, RunShot, RunSnapshot};
use crate::listing::{list_records, Listed};
use crate::paths::{inside, join_path, law_joined_names_are_inside, path_join, path_parts, plain_name, Part};
use crate::sorting::in_order;
use crate::strmap::StrMap;
use crate::text::{opt_text, same};

verus! {

// ---- the places that were agreed to ----

/// The id asked for where there is a place of it, else the fresh one.
pub open spec fn consent_id<D>(places: Map<Text, D>, id: Option<Text>, fresh: Text) -> Text {
    match id {
        Some(i) => if places.contains_key(i) {
            i
        } else {
            fresh
        },
        None => fresh,
    }
}

/// Takes note of a place, a new one or one in place of that of the same id; its id.
pub fn export_consent<D>(places: &mut StrMap<D>, id: Option<String>, fresh: String, place: D) -> (r: String)
    ensures
        r@ == consent_id(old(places)@, opt_text(id), fresh@),
        final(places)@ == old(places)@.insert(r@, place),
{
    let chosen = match id {
        Some(i) => if places.contains(&i) {
            i
        } else {
            fresh
        },
        None => fresh,
    };
    places.set(&chosen, place);
    chosen
}

/// Takes a place back; what it was, where there was one.
pub fn export_revoke<D>(places: &mut StrMap<D>, id: &str) -> (r: Option<D>)
    ensures
        final(places)@ == old(places)@.remove(id@),
        match r {
            Some(d) => old(places)@.contains_key(id@) && d == old(places)@[id@],
            None => !old(places)@.contains_key(id@),
        },
{
    places.remove(id)
}

/// A place that was agreed to is found under its id until it is taken back; no other place is
/// touched by either.
pub proof fn law_places_are_kept_until_revoked<D>(places: Map<Text, D>, id: Text, place: D, other: Text)
    ensures
        places.insert(id, place)[id] == place,
        !places.insert(id, place).remove(id).contains_key(id),
        other != id && places.contains_key(other) ==> places.insert(id, place)[other] == places[other] && places.remove(id)[other] == places[other],
{
}

// ---- exporting ----

/// `i` is the first run with this id.
pub open spec fn is_run(runs: Seq<RunShot>, id: Text, i: int) -> bool {
    0 <= i < runs.len() && runs[i].id == id && forall|j: int| 0 <= j < i ==> (#[trigger] runs[j]).id != id
}

/// The folder of a run's products.
pub open spec fn products_dir(root: Text, flow: Text, id: Text) -> Text {
    path_join(path_join(path_join(path_join(path_join(root, ".tome"@), "flows"@), flow), "out"@), id)
}

/// The folder to export for the run `id`; the run has to be known, and done.
pub fn export_source(runs: &Vec<RunSnapshot>, id: &str) -> (r: Result<String, String>)
    ensures
        (forall|i: int| !#[trigger] is_run(shots(runs@), id@, i)) ==> (r matches Err(e) && e@ == "no such run"@),
        forall|i: int|
            #[trigger] is_run(shots(runs@), id@, i) ==> match r {
                Ok(dir) => shots(runs@)[i].status == "done"@ && dir@ == products_dir(shots(runs@)[i].root, shots(runs@)[i].flow, id@),
                Err(e) => shots(runs@)[i].status != "done"@ && e@ == "this run has not finished yet"@,
            },
{
    let ghost all = shots(runs@);
    let mut k: usize = 0;
    while k < runs.len()
        invariant
            k <= runs@.len(),
            all == shots(runs@),
            forall|j: int| 0 <= j < k ==> (#[trigger] all[j]).id != id@,
        decreases runs@.len() - k,
    {
        assert(all[k as int] == runs@[k as int]@);
        if same(&runs[k].id, id) {
            proof {
                assert(is_run(all, id@, k as int));
                assert forall|i: int| #[trigger] is_run(all, id@, i) implies i == k by {
                    if i < k {
                        assert(all[i].id != id@);
                    }
                }
            }
            if !same(&runs[k].status, "done") {
                return Err("this run has not finished yet".to_owned());
            }
            let a = join_path(&runs[k].root, ".tome");
            let b = join_path(&a, "flows");
            let c = join_path(&b, &runs[k].flow);
            let d = join_path(&c, "out");
            return Ok(join_path(&d, id));
        }
        k += 1;
    }
    Err("no such run".to_owned())
}

/// Where products go.
pub enum ExportTarget {
    /// A place that was agreed to, by its id.
    Destination(String),
    /// A folder that was picked.
    Folder(String),
}

pub enum TargetView {
    Destination(Text),
    Folder(Text),
}

impl View for ExportTarget {
    type V = TargetView;

    open spec fn view(&self) -> TargetView {
        match self {
            ExportTarget::Destination(s) => TargetView::Destination(s@),
            ExportTarget::Folder(s) => TargetView::Folder(s@),
        }
    }
}

/// Where to export to, or why not: there have to be products, and exactly one place to go.
pub open spec fn target(products: bool, destination: Option<Text>, folder: Option<Text>) -> Result<TargetView, Text> {
    if !products {
        Err("this run has no exported products yet"@)
    } else {
        match (destination, folder) {
            (Some(d), None) => Ok(TargetView::Destination(d)),
            (None, Some(f)) => Ok(TargetView::Folder(f)),
            (None, None) => Err("export needs a destination or a folder"@),
            (Some(_), Some(_)) => Err("export needs exactly one of destinationId or localPath"@),
        }
    }
}

/// Where to export to; `products` says whether the run's folder is there.
pub fn export_target(products: bool, destination_id: Option<String>, local_path: Option<String>) -> (r: Result<ExportTarget, String>)
    ensures
        match r {
            Ok(t) => target(products, opt_text(destination_id), opt_text(local_path)) == Ok::<TargetView, Text>(t@),
            Err(e) => target(products, opt_text(destination_id), opt_text(local_path)) == Err::<TargetView, Text>(e@),
        },
{
    if !products {
        return Err("this run has no exported products yet".to_owned());
    }
    match (destination_id, local_path) {
        (Some(d), None) => Ok(ExportTarget::Destination(d)),
        (None, Some(f)) => Ok(ExportTarget::Folder(f)),
        (None, None) => Err("export needs a destination or a folder".to_owned()),
        (Some(_), Some(_)) => Err("export needs exactly one of destinationId or localPath".to_owned()),
    }
}

/// The place of this id, for an export: it has to be one that was agreed to.
pub fn export_place<'a, D>(places: &'a StrMap<D>, id: &str) -> (r: Result<&'a D, String>)
    ensures
        match r {
            Ok(d) => places@.contains_key(id@) && *d == places@[id@],
            Err(e) => !places@.contains_key(id@) && e@ == "no such export destination"@,
        },
{
    match places.get(id) {
        Some(d) => Ok(d),
        None => Err("no such export destination".to_owned()),
    }
}

/// An export on its way.
pub enum ExportStep {
    /// Look whether this folder is there.
    Look(String),
    /// Send the folder `from` to a place that was agreed to, once that place still reads as it did
    /// then.
    Send { from: String, place: String },
    /// Copy the folder `from` to one that was picked.
    Copy { from: String, folder: String },
    Fail(String),
}

pub enum ExportStepView {
    Look(Text),
    Send { from: Text, place: Text },
    Copy { from: Text, folder: Text },
    Fail(Text),
}

impl View for ExportStep {
    type V = ExportStepView;

    open spec fn view(&self) -> ExportStepView {
        match self {
            ExportStep::Look(d) => ExportStepView::Look(d@),
            ExportStep::Send { from, place } => ExportStepView::Send { from: from@, place: place@ },
            ExportStep::Copy { from, folder } => ExportStepView::Copy { from: from@, folder: folder@ },
            ExportStep::Fail(e) => ExportStepView::Fail(e@),
        }
    }
}

/// The next step for a run whose products belong in `dir`.
pub open spec fn export_next(dir: Text, products: Option<bool>, destination: Option<Text>, folder: Option<Text>) -> ExportStepView {
    match products {
        None => ExportStepView::Look(dir),
        Some(there) => match target(there, destination, folder) {
            Ok(TargetView::Destination(d)) => ExportStepView::Send { from: dir, place: d },
            Ok(TargetView::Folder(f)) => ExportStepView::Copy { from: dir, folder: f },
            Err(e) => ExportStepView::Fail(e),
        },
    }
}

/// What to do next about the export of the run `id`; `products` says whether its folder is there,
/// where that is known.
pub fn runs_export(
    runs: &Vec<RunSnapshot>,
    id: &str,
    products: Option<bool>,
    destination_id: Option<String>,
    local_path: Option<String>,
) -> (r: ExportStep)
    ensures
        (forall|i: int| !#[trigger] is_run(shots(runs@), id@, i)) ==> r@ == ExportStepView::Fail("no such run"@),
        forall|i: int|
            #[trigger] is_run(shots(runs@), id@, i) ==> r@ == if shots(runs@)[i].status != "done"@ {
                ExportStepView::Fail("this run has not finished yet"@)
            } else {
                export_next(
                    products_dir(shots(runs@)[i].root, shots(runs@)[i].flow, id@),
                    products,
                    opt_text(destination_id),
                    opt_text(local_path),
                )
            },
{
    let dir = match export_source(runs, id) {
        Ok(d) => d,
        Err(e) => return ExportStep::Fail(e),
    };
    match products {
        None => ExportStep::Look(dir),
        Some(there) => match export_target(there, destination_id, local_path) {
            Ok(ExportTarget::Destination(d)) => ExportStep::Send { from: dir, place: d },
            Ok(ExportTarget::Folder(f)) => ExportStep::Copy { from: dir, folder: f },
            Err(e) => ExportStep::Fail(e),
        },
    }
}

/// The places that were agreed to, as they are shown: by their labels.
pub fn export_destinations(list: Vec<Listed>) -> (r: Vec<Listed>)
    ensures
        r@ == in_order(list@),
{
    list_records(list)
}

/// Products go nowhere unless exactly one place was named, and then to that one.
pub proof fn law_exports_go_where_they_were_sent(products: bool, destination: Option<Text>, folder: Option<Text>)
    ensures
        target(products, destination, folder) matches Ok(TargetView::Destination(d)) ==> destination == Some(d) && folder is None && products,
        target(products, destination, folder) matches Ok(TargetView::Folder(f)) ==> folder == Some(f) && destination is None && products,
        (destination is Some) == (folder is Some) ==> target(products, destination, folder) is Err,
{
}

/// A place that is known keeps its id, and a new one gets the fresh id, whatever id it brought.
pub proof fn law_known_places_keep_their_id<D>(places: Map<Text, D>, id: Text, fresh: Text)
    ensures
        places.contains_key(id) ==> consent_id(places, Some(id), fresh) == id,
        !places.contains_key(id) ==> consent_id(places, Some(id), fresh) == fresh,
        consent_id(places, None, fresh) == fresh,
{
}

/// What a run has made lies in a folder of its own inside the run's root, under its flow's name and
/// its own id.
pub proof fn law_products_lie_under_their_run(root: Text, flow: Text, id: Text)
    requires
        root.len() > 0,
        plain_name(flow),
        plain_name(id),
    ensures
        path_parts(products_dir(root, flow, id)) == path_parts(root) + seq![
            Part::Name(".tome"@),
            Part::Name("flows"@),
            Part::Name(flow),
            Part::Name("out"@),
            Part::Name(id),
        ],
        inside(root, products_dir(root, flow, id)),
{
    reveal_strlit(".tome");
    reveal_strlit("flows");
    reveal_strlit("out");
    assert(plain_name(".tome"@)) by {
        assert(".tome"@.len() == 5);
    }
    assert(plain_name("flows"@)) by {
        assert("flows"@.len() == 5);
    }
    assert(plain_name("out"@)) by {
        assert("out"@.len() == 3);
    }
    let a = path_join(root, ".tome"@);
    let b = path_join(a, "flows"@);
    let c = path_join(b, flow);
    let d = path_join(c, "out"@);
    law_joined_names_are_inside(root, ".tome"@);
    law_joined_names_are_inside(a, "flows"@);
    law_joined_names_are_inside(b, flow);
    law_joined_names_are_inside(c, "out"@);
    law_joined_names_are_inside(d, id);
    let all = path_parts(products_dir(root, flow, id));
    assert(all =~= path_parts(root) + seq![
        Part::Name(".tome"@),
        Part::Name("flows"@),
        Part::Name(flow),
        Part::Name("out"@),
        Part::Name(id),
    ]);
    assert(all.take(path_parts(root).len() as int) =~= path_parts(root));
}

/// An export needs products and exactly one place to go: it looks for the products first, goes where
/// it was sent once they are there, and says what is missing.
pub proof fn law_exports_need_one_place(dir: Text, destination: Option<Text>, folder: Option<Text>)
    ensures
        export_next(dir, None, destination, folder) == ExportStepView::Look(dir),
        export_next(dir, Some(false), destination, folder) is Fail,
        destination is Some && folder is None ==> export_next(dir, Some(true), destination, folder) == (ExportStepView::Send {
            from: dir,
            place: destination->0,
        }),
        destination is None && folder is Some ==> export_next(dir, Some(true), destination, folder) == (ExportStepView::Copy {
            from: dir,
            folder: folder->0,
        }),
        (destination is Some) == (folder is Some) ==> export_next(dir, Some(true), destination, folder) is Fail,
{
}

}
