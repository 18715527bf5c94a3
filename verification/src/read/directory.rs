//! The reading of the documents of a directory and of the directories in
//! it.

use vstd::prelude::*;
use crate::document::clone_dir_path;
use crate::document::DirNode;
use crate::document::DirNodeView;
use crate::read::document::document;
use crate::read::document::read_document;
use crate::read::document::ReadFsDocument;
use crate::read::document::ReadFsDocumentView;
use crate::read::node::entry_views;
use crate::read::node::Node;
use crate::read::node::NodeView;
use crate::read::project::dir_name;
use crate::read::project::read_dir_file;
use crate::text::ends_with;
use crate::text::is_suffix;
use crate::views::views;

verus! {

/// A file or a directory as it is handed over for reading.
pub enum FsNode {
    /// A file: its name and, where it is the file of a document, the
    /// dictionary that it holds, or the message of the error for a file
    /// that could not be read or parsed.
    File(String, Result<Vec<(String, Node)>, String>),
    /// A directory: its name; the path of the file that names it, where it
    /// has one, with the dictionary that the file holds, or the message of
    /// the error for a file that could not be parsed; and its files and
    /// directories, in the order in which they are to be read.
    Directory(String, Option<(String, Result<Vec<(String, Node)>, String>)>, Vec<FsNode>),
}

/// What an `FsNode` holds.
pub ghost enum FsNodeView {
    File(Seq<char>, Result<Seq<(Seq<char>, NodeView)>, Seq<char>>),
    Directory(
        Seq<char>,
        Option<(Seq<char>, Result<Seq<(Seq<char>, NodeView)>, Seq<char>>)>,
        Seq<FsNodeView>,
    ),
}

/// What the content of a file holds: its dictionary, or the message of the
/// error.
pub open spec fn content_view(content: Result<Vec<(String, Node)>, String>) -> Result<
    Seq<(Seq<char>, NodeView)>,
    Seq<char>,
> {
    match content {
        Ok(entries) => Ok(entry_views(entries@)),
        Err(e) => Err(e@),
    }
}

/// What the files and directories `nodes` hold, in order.
pub open spec fn fs_node_views(nodes: Seq<FsNode>) -> Seq<FsNodeView>
    decreases nodes,
{
    Seq::new(
        nodes.len(),
        |i: int|
            if 0 <= i < nodes.len() {
                fs_node_view(nodes[i])
            } else {
                arbitrary()
            },
    )
}

/// What the file or directory `node` holds.
pub open spec fn fs_node_view(node: FsNode) -> FsNodeView
    decreases node,
{
    match node {
        FsNode::File(name, content) => FsNodeView::File(name@, content_view(content)),
        FsNode::Directory(name, dir_file, nodes) => FsNodeView::Directory(
            name@,
            match dir_file {
                Some((path, content)) => Some((path@, content_view(content))),
                None => None,
            },
            fs_node_views(nodes@),
        ),
    }
}

impl View for FsNode {
    type V = FsNodeView;

    open spec fn view(&self) -> FsNodeView {
        fs_node_view(*self)
    }
}

/// What a sequence of files and directories holds is what they hold, one
/// by one.
pub proof fn lemma_fs_node_views(nodes: Seq<FsNode>)
    ensures
        fs_node_views(nodes).len() == nodes.len(),
        forall|i: int| 0 <= i < nodes.len() ==> #[trigger] fs_node_views(nodes)[i] == nodes[i]@,
{
    reveal_with_fuel(fs_node_views, 2);
}

/// Whether a file with the name `name` is the file of a document: its name
/// ends with `.d.khi` or with `.d`.
pub open spec fn is_document_name(name: Seq<char>) -> bool {
    is_suffix(".d.khi"@, name) || is_suffix(".d"@, name)
}

/// Whether a file with the name `name` is the file of a document.
pub fn is_document_file(name: &str) -> (b: bool)
    ensures
        b == is_document_name(name@),
{
    ends_with(name, ".d.khi") || ends_with(name, ".d")
}

/// The way `crumbs` to a directory whose file gives it the name `crumb`:
/// the name is the crumb of the last directory of the way.
pub open spec fn with_crumb(crumbs: Seq<DirNodeView>, crumb: Seq<char>) -> Seq<DirNodeView> {
    if crumbs.len() > 0 {
        crumbs.update(
            crumbs.len() - 1,
            DirNodeView { dir_name: crumbs.last().dir_name, crumb: Some(crumb) },
        )
    } else {
        crumbs
    }
}

/// The documents of the first `n` of the files and directories `nodes` of
/// a directory with the way `crumbs`, in order; or the message of the
/// first error.
pub open spec fn entries_documents(nodes: Seq<FsNodeView>, crumbs: Seq<DirNodeView>, n: int) -> Result<
    Seq<ReadFsDocumentView>,
    Seq<char>,
>
    decreases nodes, n,
{
    if n <= 0 || n > nodes.len() {
        Ok(Seq::empty())
    } else {
        match entries_documents(nodes, crumbs, n - 1) {
            Err(e) => Err(e),
            Ok(before) => match node_documents(nodes[n - 1], crumbs) {
                Err(e) => Err(e),
                Ok(more) => Ok(before + more),
            },
        }
    }
}

/// The documents of the file or directory `node`, which stands in a
/// directory with the way `crumbs`; or the message of the first error.
///
/// A file is a document where its name says so, and any other file is
/// passed over. A directory is one more step of the way for what is in it;
/// where it has a file that names it, the name is its crumb.
pub open spec fn node_documents(node: FsNodeView, crumbs: Seq<DirNodeView>) -> Result<
    Seq<ReadFsDocumentView>,
    Seq<char>,
>
    decreases node, 1int,
{
    match node {
        FsNodeView::File(name, content) => {
            if is_document_name(name) {
                match content {
                    Err(e) => Err(e),
                    Ok(entries) => match document(entries) {
                        Err(e) => Err(e),
                        Ok(read) => Ok(
                            seq![
                                ReadFsDocumentView {
                                    file_name: name,
                                    dir_path: crumbs,
                                    document: read,
                                },
                            ],
                        ),
                    },
                }
            } else {
                Ok(Seq::empty())
            }
        },
        FsNodeView::Directory(name, _, _) => directory_documents(
            node,
            crumbs.push(DirNodeView { dir_name: name, crumb: None }),
        ),
    }
}

/// The documents of what is in the directory `node`, whose way is
/// `crumbs`; or the message of the first error.
pub open spec fn directory_documents(node: FsNodeView, crumbs: Seq<DirNodeView>) -> Result<
    Seq<ReadFsDocumentView>,
    Seq<char>,
>
    decreases node, 0int,
{
    match node {
        FsNodeView::Directory(_, dir_file, nodes) => {
            match dir_file {
                Some((path, content)) => match content {
                    Err(e) => Err(e),
                    Ok(entries) => match dir_name(entries, path) {
                        Err(e) => Err(e),
                        Ok(crumb) => entries_documents(
                            nodes,
                            with_crumb(crumbs, crumb),
                            nodes.len() as int,
                        ),
                    },
                },
                None => entries_documents(nodes, crumbs, nodes.len() as int),
            }
        },
        FsNodeView::File(_, _) => Ok(Seq::empty()),
    }
}

/// Entries of which the first `n` have an error have that error whatever
/// follows.
pub proof fn lemma_entries_stay(nodes: Seq<FsNodeView>, crumbs: Seq<DirNodeView>, n: int, m: int)
    requires
        n <= m <= nodes.len(),
        entries_documents(nodes, crumbs, n) is Err,
    ensures
        entries_documents(nodes, crumbs, m) == entries_documents(nodes, crumbs, n),
    decreases m - n,
{
    if n < m {
        lemma_entries_stay(nodes, crumbs, n, m - 1);
    }
}

/// Whether `r` and the documents `after` are the outcome `outcome` of
/// reading documents after the documents `before`.
pub open spec fn documents_read(
    before: Seq<ReadFsDocumentView>,
    after: Seq<ReadFsDocumentView>,
    r: Result<(), String>,
    outcome: Result<Seq<ReadFsDocumentView>, Seq<char>>,
) -> bool {
    match outcome {
        Ok(more) => r is Ok && after == before + more,
        Err(e) => r matches Err(message) && message@ == e,
    }
}

/// Reads the documents of the file or directory `node`, which stands in a
/// directory with the way `crumbs`.
fn read_node(node: &FsNode, read_documents: &mut Vec<ReadFsDocument>, crumbs: &mut Vec<DirNode>) -> (r:
    Result<(), String>)
    ensures
        documents_read(
            views(old(read_documents)@),
            views(final(read_documents)@),
            r,
            node_documents(node@, views(old(crumbs)@)),
        ),
        r is Ok ==> views(final(crumbs)@) == views(old(crumbs)@),
    decreases node, 1int,
{
    match node {
        FsNode::File(name, content) => {
            if is_document_file(name.as_str()) {
                let entries = match content {
                    Ok(entries) => entries,
                    Err(e) => {
                        return Err(e.clone());
                    },
                };
                let document = match read_document(entries) {
                    Ok(document) => document,
                    Err(e) => {
                        return Err(e);
                    },
                };
                let ghost before = views(read_documents@);
                let read = ReadFsDocument {
                    file_name: name.clone(),
                    dir_path: clone_dir_path(crumbs),
                    document,
                };
                read_documents.push(read);
                assert(views(read_documents@) =~= before + seq![read@]);
            } else {
                assert(views(read_documents@) =~= views(old(read_documents)@) + Seq::<
                    ReadFsDocumentView,
                >::empty());
            }
            Ok(())
        },
        FsNode::Directory(name, _, _) => {
            let ghost way = views(crumbs@);
            let pushed = DirNode { dir_name: name.clone(), crumb: None };
            crumbs.push(pushed);
            assert(views(crumbs@) =~= way.push(pushed@));
            match read_document_dir_inner(node, read_documents, crumbs) {
                Ok(_) => {},
                Err(e) => {
                    return Err(e);
                },
            }
            crumbs.pop();
            assert(views(crumbs@) =~= way);
            Ok(())
        },
    }
}

/// Reads the documents of what is in the directory `node`, whose way is
/// `crumbs`. The way is one directory longer for each directory that is
/// gone into, and afterwards as long as it was.
pub fn read_document_dir_inner(
    node: &FsNode,
    read_documents: &mut Vec<ReadFsDocument>,
    crumbs: &mut Vec<DirNode>,
) -> (r: Result<(), String>)
    ensures
        documents_read(
            views(old(read_documents)@),
            views(final(read_documents)@),
            r,
            directory_documents(node@, views(old(crumbs)@)),
        ),
        r is Ok ==> final(crumbs)@.len() == old(crumbs)@.len() && forall|k: int|
            0 <= k < old(crumbs)@.len() - 1 ==> (#[trigger] final(crumbs)@[k])@ == old(
                crumbs,
            )@[k]@,
    decreases node, 0int,
{
    let (dir_file, nodes) = match node {
        FsNode::Directory(_, dir_file, nodes) => (dir_file, nodes),
        FsNode::File(_, _) => {
            assert(views(read_documents@) =~= views(old(read_documents)@) + Seq::<
                ReadFsDocumentView,
            >::empty());
            return Ok(());
        },
    };
    match dir_file {
        Some((path, content)) => {
            let entries = match content {
                Ok(entries) => entries,
                Err(e) => {
                    return Err(e.clone());
                },
            };
            let dir_crumb = match read_dir_file(entries, path.as_str()) {
                Ok(crumb) => crumb,
                Err(e) => {
                    return Err(e);
                },
            };
            let ghost way = views(crumbs@);
            match crumbs.pop() {
                Some(last) => {
                    let replaced = DirNode { dir_name: last.dir_name, crumb: Some(dir_crumb) };
                    crumbs.push(replaced);
                    assert(views(crumbs@) =~= with_crumb(way, dir_crumb@));
                },
                None => {
                    assert(views(crumbs@) =~= with_crumb(way, dir_crumb@));
                },
            }
        },
        None => {},
    }
    let ghost all = fs_node_views(nodes@);
    let ghost way = views(crumbs@);
    let ghost start = views(read_documents@);
    proof {
        lemma_fs_node_views(nodes@);
    }
    assert(views(read_documents@) =~= start + Seq::<ReadFsDocumentView>::empty());
    let mut i: usize = 0;
    while i < nodes.len()
        invariant
            i <= nodes.len(),
            decreases_to!(node => nodes),
            all == fs_node_views(nodes@),
            all.len() == nodes.len(),
            forall|k: int| 0 <= k < nodes.len() ==> #[trigger] all[k] == nodes[k]@,
            way == views(crumbs@),
            way.len() == old(crumbs)@.len(),
            forall|k: int| 0 <= k < old(crumbs)@.len() - 1 ==> #[trigger] way[k] == old(crumbs)@[k]@,
            start == views(old(read_documents)@),
            directory_documents(node@, views(old(crumbs)@)) == entries_documents(
                all,
                way,
                all.len() as int,
            ),
            entries_documents(all, way, i as int) matches Ok(more) && views(read_documents@)
                == start + more,
        decreases nodes.len() - i,
    {
        let ghost before = views(read_documents@);
        match read_node(&nodes[i], read_documents, crumbs) {
            Ok(_) => {},
            Err(e) => {
                proof {
                    lemma_entries_stay(all, way, i + 1, all.len() as int);
                }
                return Err(e);
            },
        }
        proof {
            let so_far = entries_documents(all, way, i as int)->Ok_0;
            let more = node_documents(all[i as int], way)->Ok_0;
            assert(views(read_documents@) =~= start + (so_far + more));
        }
        i = i + 1;
    }
    proof {
        assert forall|k: int| 0 <= k < old(crumbs)@.len() - 1 implies (#[trigger] crumbs@[k])@
            == old(crumbs)@[k]@ by {
            assert(way[k] == crumbs@[k]@);
        }
    }
    Ok(())
}

/// What a result that is a list of documents or an error message holds.
pub open spec fn read_documents_view(r: Result<Vec<ReadFsDocument>, String>) -> Result<
    Seq<ReadFsDocumentView>,
    Seq<char>,
> {
    match r {
        Ok(documents) => Ok(views(documents@)),
        Err(e) => Err(e@),
    }
}

/// Reads the documents of the directory `root` and of the directories in
/// it, in the order in which they are handed over. The way of a document
/// is made of the directories below `root` that lead to it.
pub fn read_document_dir(root: &FsNode) -> (r: Result<Vec<ReadFsDocument>, String>)
    ensures
        read_documents_view(r) == directory_documents(root@, Seq::empty()),
{
    let mut read_documents: Vec<ReadFsDocument> = Vec::new();
    let mut dir_path: Vec<DirNode> = Vec::new();
    assert(views(dir_path@) =~= Seq::<DirNodeView>::empty());
    assert(views(read_documents@) =~= Seq::<ReadFsDocumentView>::empty());
    match read_document_dir_inner(root, &mut read_documents, &mut dir_path) {
        Ok(_) => {
            assert(views(read_documents@) =~= directory_documents(root@, Seq::empty())->Ok_0);
            Ok(read_documents)
        },
        Err(e) => Err(e),
    }
}

} // verus!
