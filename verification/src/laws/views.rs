//! Laws of the views: what the contracts see of a value is all that it holds.
use vstd::prelude::*;

use crate::components;
use crate::components::{Component, Part};
use crate::decimal;
use crate::doctor;
use crate::laws::database;
use crate::mapping::WorkspaceMapping;
use crate::order;
use crate::paths;
use crate::settings;
use crate::sync_engine;
use crate::sync_engine::{Action, SyncAction};
use crate::text;
use crate::workspace_db;
use crate::workspace_db::{Lookup, Query};
use crate::workspace_file;
use crate::workspace_file::{CodeWorkspaceFile, WorkspaceFolder};

verus! {

/// Rows of strings are seen string by string.
pub proof fn law_texts(v: Seq<String>, o: Option<String>, i: int)
    ensures
        text::texts(v).len() == v.len(),
        0 <= i < v.len() ==> text::texts(v)[i] == v[i]@,
        o is Some ==> text::opt(o) == Some(o->0@),
        o is None ==> text::opt(o) is None,
{
}

/// Optional borrowed strings, and rows of optional strings.
pub proof fn law_options(s: &str, v: Seq<Option<String>>, i: int)
    ensures
        text::opt_str(Some(s)) == Some(s@),
        text::opt_str(None) is None,
        doctor::opts(v).len() == v.len(),
        0 <= i < v.len() ==> doctor::opts(v)[i] == text::opt(v[i]),
        0 <= i < v.len() ==> settings::content_at(v, i) == text::opt(v[i]),
{
}

/// A folder is seen with its path and its name, and a file with all its folders.
pub proof fn law_folder(f: WorkspaceFolder, ws: CodeWorkspaceFile, i: int)
    ensures
        f@.path == f.path@,
        f@.name == text::opt(f.name),
        ws.list().len() == ws.folders@.len(),
        0 <= i < ws.folders@.len() ==> ws.list()[i] == ws.folders@[i]@,
        workspace_file::folders_of(ws.folders@) == ws.list(),
        workspace_file::unnamed(f.path@).path == f.path@,
        workspace_file::unnamed(f.path@).name is None,
{
}

/// A step is seen as what it is.
pub proof fn law_step(p: String, v: Seq<SyncAction>, i: int)
    ensures
        SyncAction::AddToFile(p)@ == Action::AddToFile(p@),
        SyncAction::RemoveFromFile(p)@ == Action::RemoveFromFile(p@),
        SyncAction::InvokeCliAdd(p)@ == Action::InvokeCliAdd(p@),
        SyncAction::PendingRemoval(p)@ == Action::PendingRemoval(p@),
        SyncAction::ReorderFile@ == Action::ReorderFile,
        sync_engine::steps(v).len() == v.len(),
        0 <= i < v.len() ==> sync_engine::steps(v)[i] == v[i]@,
{
}

/// A question to the database is seen as what it is.
pub proof fn law_lookup(id: i64, s: String, v: Seq<Lookup>, i: int)
    ensures
        Lookup::ById(id)@ == Query::ById(id),
        Lookup::ByPaths(s)@ == Query::ByPaths(s@),
        Lookup::ByFolder(s)@ == Query::ByFolder(s@),
        Lookup::Latest@ == Query::Latest,
        workspace_db::queries(v).len() == v.len(),
        0 <= i < v.len() ==> workspace_db::queries(v)[i] == v[i]@,
{
}

/// A component is seen as what it is.
pub proof fn law_component(s: String, v: Seq<Component>, i: int)
    ensures
        Component::RootDir@ == Part::Root,
        Component::CurDir@ == Part::Cur,
        Component::ParentDir@ == Part::Parent,
        Component::Normal(s)@ == Part::Normal(s@),
        components::parts(v).len() == v.len(),
        0 <= i < v.len() ==> components::parts(v)[i] == v[i]@,
{
}

/// Mappings say the same exactly where all that they hold is the same.
pub proof fn law_same_mapping(a: WorkspaceMapping, b: WorkspaceMapping)
    ensures
        a.same(b) <==> a.workspace_id == b.workspace_id && a.workspace_file@ == b.workspace_file@
            && text::opt(a.zed_channel) == text::opt(b.zed_channel) && text::opt(a.last_sync_ts)
            == text::opt(b.last_sync_ts),
{
}

/// Paths are picked at the indices of a row, one for each; and paths are the same where their
/// normalized forms are.
pub proof fn law_rows(list: Seq<Seq<char>>, row: Seq<int>, a: Seq<char>, b: Seq<char>, i: int)
    ensures
        paths::picked(list, row).len() == row.len(),
        0 <= i < row.len() ==> paths::picked(list, row)[i] == list[row[i]],
        paths::equal(a, b) <==> paths::normal(a) == paths::normal(b),
        components::same_path(a, b) <==> components::components(a) == components::components(b),
        components::absolute(a) <==> a.len() > 0 && a[0] == '/',
{
}

/// Positions are written number by number, with a comma before each but the first.
pub proof fn law_written_positions(row: Seq<usize>, n: usize)
    ensures
        order::written_positions(seq![n]) == decimal::written(n as int),
        row.len() > 0 ==> order::written_positions(row.push(n)) == order::written_positions(row)
            + seq![','] + decimal::written(n as int),
        order::written_positions(Seq::empty()) == Seq::<char>::empty(),
{
    let w = decimal::written(n as int);
    let pieces = order::written_pieces(row);
    database::law_join(pieces, w, ',');
    assert(order::written_pieces(seq![n]) == seq![w]);
    assert(order::written_pieces(row.push(n)) == pieces.push(w));
    assert(order::written_pieces(Seq::empty()) == Seq::<Seq<char>>::empty());
}

} // verus!
