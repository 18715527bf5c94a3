//! The reading of a project file: where the model is, the resolution paths
//! of the project, its preamble, and its dependencies.

use vstd::prelude::*;
use crate::read::article::texts_view;
use crate::read::tex::tex_text;
use crate::read::tex::write_tex;
use crate::read::node::entry_views;
use crate::read::node::get;
use crate::read::node::lemma_entry_views;
use crate::read::node::lemma_node_views;
use crate::read::node::lookup;
use crate::read::node::node_views;
use crate::read::node::Node;
use crate::read::node::NodeView;
use crate::text::text_view;
use crate::views::collect;
use crate::views::lemma_collect_err;
use crate::views::lemma_collect_ok;
use crate::views::option_view;
use crate::views::views;

verus! {

/// A dependency as a project file names it.
pub struct ReadDependencyEntry {
    /// The path of the directory of the dependency.
    pub path: String,
    /// The name of the way in which the dependency is included.
    pub inclusion: String,
}

/// What a `ReadDependencyEntry` holds.
pub ghost struct ReadDependencyEntryView {
    pub path: Seq<char>,
    pub inclusion: Seq<char>,
}

impl View for ReadDependencyEntry {
    type V = ReadDependencyEntryView;

    open spec fn view(&self) -> ReadDependencyEntryView {
        ReadDependencyEntryView { path: self.path@, inclusion: self.inclusion@ }
    }
}

/// What a project file says.
pub struct ReadProjectX {
    /// The path of the model file.
    pub model_path: String,
    pub resolution_paths: Vec<String>,
    pub preamble: Option<String>,
    pub dependencies: Vec<ReadDependencyEntry>,
}

/// What a `ReadProjectX` holds.
pub ghost struct ReadProjectView {
    pub model_path: Seq<char>,
    pub resolution_paths: Seq<Seq<char>>,
    pub preamble: Option<Seq<char>>,
    pub dependencies: Seq<ReadDependencyEntryView>,
}

impl View for ReadProjectX {
    type V = ReadProjectView;

    open spec fn view(&self) -> ReadProjectView {
        ReadProjectView {
            model_path: self.model_path@,
            resolution_paths: views(self.resolution_paths@),
            preamble: option_view(self.preamble),
            dependencies: views(self.dependencies@),
        }
    }
}

/// The path of the model file that the project file `project` names: the
/// text of the entry `ModelFile`, and `model.khi` where there is none.
pub open spec fn header(project: Seq<(Seq<char>, NodeView)>) -> Result<Seq<char>, Seq<char>> {
    match lookup(project, "ModelFile"@) {
        Some(NodeView::Text(path, _, _)) => Ok(path),
        Some(_) => Err("The ModelFile entry must be text."@),
        None => Ok("model.khi"@),
    }
}

/// Reads the path of the model file.
pub fn read_header(project: &Vec<(String, Node)>) -> (r: Result<String, String>)
    ensures
        text_view(r) == header(entry_views(project@)),
{
    match get(project, "ModelFile") {
        Some(Node::Text(path, _, _)) => Ok(path.clone()),
        Some(_) => Err(String::from_str("The ModelFile entry must be text.")),
        None => Ok(String::from_str("model.khi")),
    }
}

/// The resolution path of a project that `value` must be a text of.
pub open spec fn project_path(value: NodeView) -> Result<Seq<char>, Seq<char>> {
    match value {
        NodeView::Text(path, _, _) => Ok(path),
        _ => Err("The elements of Resolve must be text document paths."@),
    }
}

/// For each of `values`, the resolution path that it must be.
pub open spec fn project_paths(values: Seq<NodeView>) -> Seq<Result<Seq<char>, Seq<char>>> {
    Seq::new(values.len(), |i: int| project_path(values[i]))
}

/// The resolution paths that the project file `project` names: the texts
/// of the list `Resolve`, and none where there is no such entry.
pub open spec fn resolution(project: Seq<(Seq<char>, NodeView)>) -> Result<
    Seq<Seq<char>>,
    Seq<char>,
> {
    match lookup(project, "Resolve"@) {
        Some(NodeView::List(values, _, _)) => collect(project_paths(values)),
        Some(_) => Err("The Resolve section must be a list."@),
        None => Ok(Seq::empty()),
    }
}

/// Reads the resolution paths of a project.
pub fn read_resolution(project: &Vec<(String, Node)>) -> (r: Result<Vec<String>, String>)
    ensures
        texts_view(r) == resolution(entry_views(project@)),
{
    let mut paths: Vec<String> = Vec::new();
    let values = match get(project, "Resolve") {
        Some(Node::List(values, _, _)) => values,
        Some(_) => {
            return Err(String::from_str("The Resolve section must be a list."));
        },
        None => {
            assert(views(paths@) =~= Seq::<Seq<char>>::empty());
            return Ok(paths);
        },
    };
    let ghost results = project_paths(node_views(values@));
    proof {
        lemma_node_views(values@);
    }
    let mut i: usize = 0;
    while i < values.len()
        invariant
            i <= values.len(),
            resolution(entry_views(project@)) == collect(results),
            results == project_paths(node_views(values@)),
            results.len() == values.len(),
            forall|k: int|
                0 <= k < values.len() ==> #[trigger] results[k] == project_path(values[k]@),
            paths.len() == i,
            forall|k: int|
                0 <= k < i ==> #[trigger] results[k] == Ok::<Seq<char>, Seq<char>>(paths[k]@),
        decreases values.len() - i,
    {
        match &values[i] {
            Node::Text(path, _, _) => {
                paths.push(path.clone());
            },
            _ => {
                proof {
                    lemma_collect_err(results, i as int);
                }
                return Err(
                    String::from_str("The elements of Resolve must be text document paths."),
                );
            },
        }
        i = i + 1;
    }
    proof {
        lemma_collect_ok(results, views(paths@));
    }
    Ok(paths)
}

/// The preamble that the project file `project` holds: its entry
/// `Preamble` rendered as TeX, where there is one.
pub open spec fn preamble(project: Seq<(Seq<char>, NodeView)>) -> Result<
    Option<Seq<char>>,
    Seq<char>,
> {
    match lookup(project, "Preamble"@) {
        Some(value) => match tex_text(value) {
            Ok(tex) => Ok(Some(tex)),
            Err(e) => Err(e),
        },
        None => Ok(None),
    }
}

/// Reads the preamble of a project.
pub fn read_preamble(project: &Vec<(String, Node)>) -> (r: Result<Option<String>, String>)
    ensures
        crate::read::model::optional_text_view(r) == preamble(entry_views(project@)),
{
    match get(project, "Preamble") {
        Some(value) => match write_tex(value) {
            Ok(tex) => Ok(Some(tex)),
            Err(e) => Err(e),
        },
        None => Ok(None),
    }
}

/// The dependency that the entry `entry` names: its value is a dictionary
/// with the text `Path`, which must be there, and the text `Include`, in
/// place of which `All` is taken where it is left out.
pub open spec fn dependency_entry(entry: (Seq<char>, NodeView)) -> Result<
    ReadDependencyEntryView,
    Seq<char>,
> {
    match entry.1 {
        NodeView::Dictionary(fields, _, _) => match lookup(fields, "Path"@) {
            Some(NodeView::Text(path, _, _)) => match lookup(fields, "Include"@) {
                Some(NodeView::Text(inclusion, _, _)) => Ok(
                    ReadDependencyEntryView { path, inclusion },
                ),
                Some(_) => Err("Dependency Include entry must be text."@),
                None => Ok(ReadDependencyEntryView { path, inclusion: "All"@ }),
            },
            Some(_) => Err("Dependency Path entry must be text."@),
            None => Err("Dependency must have a Path entry."@),
        },
        _ => Err("Dependency must be a dictionary."@),
    }
}

/// For each of `entries`, the dependency that it names.
pub open spec fn dependency_entries(entries: Seq<(Seq<char>, NodeView)>) -> Seq<
    Result<ReadDependencyEntryView, Seq<char>>,
> {
    Seq::new(entries.len(), |i: int| dependency_entry(entries[i]))
}

/// The dependencies that the project file `project` names: those of the
/// entries of the dictionary `Dependencies`, in order, and none where
/// there is no such entry.
pub open spec fn dependencies(project: Seq<(Seq<char>, NodeView)>) -> Result<
    Seq<ReadDependencyEntryView>,
    Seq<char>,
> {
    match lookup(project, "Dependencies"@) {
        Some(NodeView::Dictionary(entries, _, _)) => collect(dependency_entries(entries)),
        Some(_) => Err("Dependencies section must be a dictionary."@),
        None => Ok(Seq::empty()),
    }
}

/// What a result that is a dependency or an error message holds.
pub open spec fn dependency_view(r: Result<ReadDependencyEntry, String>) -> Result<
    ReadDependencyEntryView,
    Seq<char>,
> {
    match r {
        Ok(dependency) => Ok(dependency@),
        Err(e) => Err(e@),
    }
}

/// What a result that is a list of dependencies or an error message holds.
pub open spec fn dependencies_view(r: Result<Vec<ReadDependencyEntry>, String>) -> Result<
    Seq<ReadDependencyEntryView>,
    Seq<char>,
> {
    match r {
        Ok(dependencies) => Ok(views(dependencies@)),
        Err(e) => Err(e@),
    }
}

/// Reads the dependency that the value `value` names.
fn read_dependency(key: &String, value: &Node) -> (r: Result<ReadDependencyEntry, String>)
    ensures
        dependency_view(r) == dependency_entry((key@, value@)),
{
    let fields = match value {
        Node::Dictionary(fields, _, _) => fields,
        _ => {
            return Err(String::from_str("Dependency must be a dictionary."));
        },
    };
    let path = match get(fields, "Path") {
        Some(Node::Text(path, _, _)) => path.clone(),
        Some(_) => {
            return Err(String::from_str("Dependency Path entry must be text."));
        },
        None => {
            return Err(String::from_str("Dependency must have a Path entry."));
        },
    };
    let inclusion = match get(fields, "Include") {
        Some(Node::Text(inclusion, _, _)) => inclusion.clone(),
        Some(_) => {
            return Err(String::from_str("Dependency Include entry must be text."));
        },
        None => String::from_str("All"),
    };
    Ok(ReadDependencyEntry { path, inclusion })
}

/// Reads the dependencies of a project.
pub fn read_dependencies(project: &Vec<(String, Node)>) -> (r: Result<
    Vec<ReadDependencyEntry>,
    String,
>)
    ensures
        dependencies_view(r) == dependencies(entry_views(project@)),
{
    let mut read: Vec<ReadDependencyEntry> = Vec::new();
    let entries = match get(project, "Dependencies") {
        Some(Node::Dictionary(entries, _, _)) => entries,
        Some(_) => {
            return Err(String::from_str("Dependencies section must be a dictionary."));
        },
        None => {
            assert(views(read@) =~= Seq::<ReadDependencyEntryView>::empty());
            return Ok(read);
        },
    };
    let ghost results = dependency_entries(entry_views(entries@));
    proof {
        lemma_entry_views(entries@);
    }
    let mut i: usize = 0;
    while i < entries.len()
        invariant
            i <= entries.len(),
            dependencies(entry_views(project@)) == collect(results),
            results == dependency_entries(entry_views(entries@)),
            results.len() == entries.len(),
            forall|k: int|
                0 <= k < entries.len() ==> #[trigger] results[k] == dependency_entry(
                    (entries[k].0@, entries[k].1@),
                ),
            read.len() == i,
            forall|k: int|
                0 <= k < i ==> #[trigger] results[k] == Ok::<
                    ReadDependencyEntryView,
                    Seq<char>,
                >(read[k]@),
        decreases entries.len() - i,
    {
        match read_dependency(&entries[i].0, &entries[i].1) {
            Ok(dependency) => {
                read.push(dependency);
            },
            Err(e) => {
                proof {
                    lemma_collect_err(results, i as int);
                }
                return Err(e);
            },
        }
        i = i + 1;
    }
    proof {
        lemma_collect_ok(results, views(read@));
    }
    Ok(read)
}

/// What the project file `project` says, or the message of the first
/// error: of the path of the model file, of the resolution paths, of the
/// preamble, and of the dependencies, in this order.
pub open spec fn project_of(project: Seq<(Seq<char>, NodeView)>) -> Result<
    ReadProjectView,
    Seq<char>,
> {
    if header(project) is Err {
        Err(header(project)->Err_0)
    } else if resolution(project) is Err {
        Err(resolution(project)->Err_0)
    } else if preamble(project) is Err {
        Err(preamble(project)->Err_0)
    } else if dependencies(project) is Err {
        Err(dependencies(project)->Err_0)
    } else {
        Ok(
            ReadProjectView {
                model_path: header(project)->Ok_0,
                resolution_paths: resolution(project)->Ok_0,
                preamble: preamble(project)->Ok_0,
                dependencies: dependencies(project)->Ok_0,
            },
        )
    }
}

/// What a result that is what a project file says or an error message
/// holds.
pub open spec fn project_view(r: Result<ReadProjectX, String>) -> Result<ReadProjectView, Seq<char>> {
    match r {
        Ok(project) => Ok(project@),
        Err(e) => Err(e@),
    }
}

/// Reads what the project file `project` says.
pub fn read_project(project: &Vec<(String, Node)>) -> (r: Result<ReadProjectX, String>)
    ensures
        project_view(r) == project_of(entry_views(project@)),
{
    let model_path = match read_header(project) {
        Ok(path) => path,
        Err(e) => {
            return Err(e);
        },
    };
    let resolution_paths = match read_resolution(project) {
        Ok(paths) => paths,
        Err(e) => {
            return Err(e);
        },
    };
    let preamble = match read_preamble(project) {
        Ok(preamble) => preamble,
        Err(e) => {
            return Err(e);
        },
    };
    let dependencies = match read_dependencies(project) {
        Ok(dependencies) => dependencies,
        Err(e) => {
            return Err(e);
        },
    };
    Ok(ReadProjectX { model_path, resolution_paths, preamble, dependencies })
}

/// The name of a directory that its file `dir_file` gives: the text of
/// the entry `Name`; `path` is the path of the file in the messages.
pub open spec fn dir_name(dir_file: Seq<(Seq<char>, NodeView)>, path: Seq<char>) -> Result<
    Seq<char>,
    Seq<char>,
> {
    match lookup(dir_file, "Name"@) {
        Some(NodeView::Text(name, _, _)) => Ok(name),
        Some(_) => Err("Name in dir file '"@ + path + "' must be text."@),
        None => Err("Name not found in dir file '"@ + path + "'."@),
    }
}

/// Reads the name of a directory from its file `dir_file`, which stands at
/// the path `path`.
pub fn read_dir_file(dir_file: &Vec<(String, Node)>, path: &str) -> (r: Result<String, String>)
    ensures
        text_view(r) == dir_name(entry_views(dir_file@), path@),
{
    match get(dir_file, "Name") {
        Some(Node::Text(name, _, _)) => Ok(name.clone()),
        Some(_) => Err(crate::text::join3("Name in dir file '", path, "' must be text.")),
        None => Err(crate::text::join3("Name not found in dir file '", path, "'.")),
    }
}

} // verus!
