//! The building of the graph of a project from the documents that were
//! read.
//!
//! The graph is built in two passes. The first registers the classes and
//! articles of every source. The second, which starts when the first is
//! done for all sources, adds the links between the classes and binds the
//! links of the documents to the articles. A link may therefore go to a
//! class that a later source registers.

pub mod bind;
pub mod inserted;
pub mod link;
pub mod register;
pub mod unkeyed;

use vstd::prelude::*;
use crate::class::Classes;
use crate::class::ClassesView;
use crate::compile::bind::bind_document;
use crate::compile::bind::lemma_bind_structure_bound;
use crate::compile::bind::lemma_bound_links_only;
use crate::compile::bind::process_document;
use crate::compile::inserted::documents_inserted;
use crate::compile::inserted::lemma_documents_inserted;
use crate::compile::inserted::lemma_documents_inserted_grown;
use crate::compile::inserted::lemma_documents_rebased;
use crate::compile::inserted::lemma_links_only_frame;
use crate::compile::inserted::links_grown;
use crate::compile::link::lemma_link_articles_stay;
use crate::compile::link::lemma_link_targets_registered;
use crate::compile::link::lemma_links_only_keeps;
use crate::compile::link::link_articles;
use crate::compile::link::link_targets;
use crate::compile::link::links_only;
use crate::compile::link::update_class_links;
use crate::compile::register::Pass;
use crate::compile::register::classes_registered;
use crate::compile::register::declares_class;
use crate::compile::register::draws_if;
use crate::compile::register::lemma_documents_stay;
use crate::compile::register::lemma_register_documents_extends;
use crate::compile::register::lemma_registered_extends;
use crate::compile::register::pass_from;
use crate::compile::register::pass_of;
use crate::compile::register::process_documents_1;
use crate::compile::register::register_documents;
use crate::dependency::Include;
use crate::dependency::ReadDependency;
use crate::dependency::ReadDependencyView;
use crate::document::FsDocument;
use crate::document::FsDocumentView;
use crate::document::documents_bound;
use crate::document::structure_bound;
use crate::model::ArticleTypeView;
use crate::model::LinkTypeId;
use crate::model::Model;
use crate::model::model_link_types;
use crate::model::model_wf;
use crate::read::article::ReadArticle;
use crate::read::document::ReadFsDocument;
use crate::read::document::ReadFsDocumentView;
use crate::views::views;

verus! {

/// How far the second pass over the documents of a source has come: the
/// pass, and the documents that are made.
pub ghost struct Binding {
    pub pass: Pass,
    pub documents: Seq<FsDocumentView>,
}

/// The second pass that starts with the store `store` and no document.
pub open spec fn binding_from(store: ClassesView) -> Binding {
    Binding { pass: pass_from(store), documents: Seq::empty() }
}

/// The second pass over one document: the document is made, with its links
/// bound to the articles of the store, and then the links of the articles
/// that it declares are inserted. A pass that has stopped stays as it is;
/// the pass stops at the first error, and the document is kept only where
/// there is none.
pub open spec fn link_document(
    binding: Binding,
    model: Seq<ArticleTypeView>,
    read: ReadFsDocumentView,
    project_paths: Seq<Seq<char>>,
) -> Binding {
    if binding.pass.error is Some {
        binding
    } else {
        match bind_document(binding.pass.store, read, project_paths) {
            Err(e) => Binding {
                pass: Pass { store: binding.pass.store, error: Some(e) },
                documents: binding.documents,
            },
            Ok(document) => {
                let pass = link_articles(
                    binding.pass,
                    model,
                    read.document.read_articles,
                    read.document.read_articles.len() as int,
                );
                Binding {
                    pass,
                    documents: if pass.error is Some {
                        binding.documents
                    } else {
                        binding.documents.push(document)
                    },
                }
            },
        }
    }
}

/// The second pass over the first `n` of the documents `documents`.
pub open spec fn link_documents(
    start: Binding,
    model: Seq<ArticleTypeView>,
    documents: Seq<ReadFsDocumentView>,
    project_paths: Seq<Seq<char>>,
    n: int,
) -> Binding
    decreases n,
{
    if n <= 0 {
        start
    } else {
        link_document(
            link_documents(start, model, documents, project_paths, n - 1),
            model,
            documents[n - 1],
            project_paths,
        )
    }
}

/// A second pass that has stopped after `n` documents is the same after
/// more of them.
pub proof fn lemma_link_documents_stay(
    start: Binding,
    model: Seq<ArticleTypeView>,
    documents: Seq<ReadFsDocumentView>,
    project_paths: Seq<Seq<char>>,
    n: int,
    m: int,
)
    requires
        n <= m,
        link_documents(start, model, documents, project_paths, n).pass.error is Some,
    ensures
        link_documents(start, model, documents, project_paths, m) == link_documents(
            start,
            model,
            documents,
            project_paths,
            n,
        ),
    decreases m - n,
{
    if n < m {
        lemma_link_documents_stay(start, model, documents, project_paths, n, m - 1);
    }
}

/// Inserts the links that the declarations `articles` declare.
fn update_links_of(model: &Model, classes: &mut Classes, articles: &Vec<ReadArticle>) -> (r: Result<
    (),
    String,
>)
    requires
        model_wf(model@),
        old(classes)@.wf(),
        old(classes)@.typed_in(model@.len()),
        forall|j: int|
            0 <= j < articles.len() ==> old(classes)@.class_map.contains_key(
                (#[trigger] articles[j])@.class_key,
            ),
    ensures
        final(classes)@.wf(),
        old(classes)@.links_among(model_link_types(model@)) ==> final(classes)@.links_among(
            model_link_types(model@),
        ),
        links_only(old(classes)@, final(classes)@),
        pass_of(final(classes)@, r) == link_articles(
            pass_from(old(classes)@),
            model@,
            views(articles@),
            articles.len() as int,
        ),
{
    let ghost start = pass_from(classes@);
    let ghost read = views(articles@);
    let mut j: usize = 0;
    while j < articles.len()
        invariant
            j <= articles.len(),
            model_wf(model@),
            classes@.wf(),
            old(classes)@.links_among(model_link_types(model@)) ==> classes@.links_among(
                model_link_types(model@),
            ),
            classes@.typed_in(model@.len()),
            links_only(old(classes)@, classes@),
            forall|k: int|
                0 <= k < articles.len() ==> old(classes)@.class_map.contains_key(
                    (#[trigger] articles[k])@.class_key,
                ),
            start == pass_from(old(classes)@),
            read == views(articles@),
            pass_from(classes@) == link_articles(start, model@, read, j as int),
        decreases articles.len() - j,
    {
        assert(read[j as int] == articles[j as int]@);
        let ghost before = classes@;
        let linked = update_class_links(model, classes, &articles[j]);
        proof {
            assert(link_articles(start, model@, read, j + 1) == pass_of(classes@, linked));
            assert forall|i: int| 0 <= i < classes@.classes.len() implies (
            #[trigger] classes@.classes[i]).article_type < model@.len() by {
                assert(before.classes[i].article_type < model@.len());
            }
        }
        match linked {
            Err(e) => {
                proof {
                    lemma_link_articles_stay(start, model@, read, j + 1, read.len() as int);
                }
                return Err(e);
            },
            Ok(_) => {},
        }
        j = j + 1;
    }
    Ok(())
}

/// The second pass over the documents of one source: makes the documents,
/// with their links bound to the articles of the store, and inserts the
/// links that the articles of the documents declare.
///
/// The pass goes through the documents in order and stops at the first
/// error. It is for a store in which the first pass has registered the
/// declarations of the documents. Where it does not stop, it makes one
/// document for each that was read, in order, every link that the
/// documents declare is in the store, and no link has left it.
pub fn process_documents_2(
    model: &Model,
    classes: &mut Classes,
    read_documents: &[ReadFsDocument],
    resolution: &[String],
) -> (r: Result<Vec<FsDocument>, String>)
    requires
        model_wf(model@),
        old(classes)@.wf(),
        old(classes)@.typed_in(model@.len()),
        classes_registered(old(classes)@, views(read_documents@)),
    ensures
        final(classes)@.wf(),
        old(classes)@.links_among(model_link_types(model@)) ==> final(classes)@.links_among(
            model_link_types(model@),
        ),
        links_only(old(classes)@, final(classes)@),
        ({
            let binding = link_documents(
                binding_from(old(classes)@),
                model@,
                views(read_documents@),
                views(resolution@),
                read_documents.len() as int,
            );
            &&& final(classes)@ == binding.pass.store
            &&& match r {
                Ok(documents) => binding.pass.error is None && views(documents@)
                    == binding.documents,
                Err(e) => binding.pass.error == Some(e@),
            }
        }),
        r matches Ok(documents) ==> documents_bound(final(classes)@, views(documents@)),
        r matches Ok(documents) ==> documents.len() == read_documents.len() && forall|k: int|
            0 <= k < documents.len() ==> (#[trigger] documents[k])@.key
                == read_documents[k]@.document.key,
        r is Ok ==> links_grown(old(classes)@, final(classes)@),
        r is Ok ==> documents_inserted(
            old(classes)@,
            final(classes)@,
            model@,
            views(read_documents@),
        ),
{
    let ghost start = binding_from(classes@);
    let ghost read = views(read_documents@);
    let ghost paths = views(resolution@);
    let mut documents: Vec<FsDocument> = Vec::new();
    assert(views(documents@) =~= Seq::<FsDocumentView>::empty());
    let mut i: usize = 0;
    while i < read_documents.len()
        invariant
            i <= read_documents.len(),
            model_wf(model@),
            classes@.wf(),
            old(classes)@.links_among(model_link_types(model@)) ==> classes@.links_among(
                model_link_types(model@),
            ),
            classes@.typed_in(model@.len()),
            links_only(old(classes)@, classes@),
            classes_registered(old(classes)@, read),
            start == binding_from(old(classes)@),
            read == views(read_documents@),
            paths == views(resolution@),
            (Binding { pass: pass_from(classes@), documents: views(documents@) })
                == link_documents(start, model@, read, paths, i as int),
            documents_bound(classes@, views(documents@)),
            documents.len() == i,
            forall|k: int|
                0 <= k < i ==> (#[trigger] documents[k])@.key == read_documents[k]@.document.key,
        decreases read_documents.len() - i,
    {
        let read_document = &read_documents[i];
        assert(read[i as int] == read_document@);
        let ghost before = classes@;
        let ghost made = views(documents@);
        let ghost made_documents = documents@;
        let document = match process_document(classes, read_document, resolution) {
            Ok(document) => document,
            Err(e) => {
                proof {
                    lemma_link_documents_stay(start, model@, read, paths, i + 1, read.len() as int);
                }
                return Err(e);
            },
        };
        proof {
            assert forall|j: int|
                0 <= j < read_document.document.read_articles.len() implies classes@.class_map.contains_key(
                (#[trigger] read_document.document.read_articles[j])@.class_key,
            ) by {
                assert(read[i as int].document.read_articles[j]
                    == read_document.document.read_articles[j]@);
            }
        }
        proof {
            lemma_bind_structure_bound(classes@, read[i as int].document.read_elements);
        }
        let linked = update_links_of(model, classes, &read_document.document.read_articles);
        proof {
            lemma_bound_links_only(before, classes@, document@.structure);
            assert forall|k: int| 0 <= k < made.len() implies structure_bound(
                classes@,
                (#[trigger] made[k]).structure,
            ) by {
                lemma_bound_links_only(before, classes@, made[k].structure);
            }
            assert forall|k: int| 0 <= k < classes@.classes.len() implies (
            #[trigger] classes@.classes[k]).article_type < model@.len() by {
                assert(before.classes[k].article_type < model@.len());
            }
        }
        match linked {
            Err(e) => {
                proof {
                    lemma_link_documents_stay(start, model@, read, paths, i + 1, read.len() as int);
                }
                return Err(e);
            },
            Ok(_) => {},
        }
        documents.push(document);
        assert(views(documents@) =~= made.push(document@));
        assert forall|k: int| 0 <= k < documents.len() implies (#[trigger] documents[k])@.key
            == read_documents[k]@.document.key by {
            if k < i {
                assert(documents[k] == made_documents[k]);
            }
        }
        assert forall|k: int| 0 <= k < views(documents@).len() implies structure_bound(
            classes@,
            (#[trigger] views(documents@)[k]).structure,
        ) by {
            if k < made.len() {
                assert(views(documents@)[k] == made[k]);
            }
        }
        i = i + 1;
    }
    proof {
        lemma_documents_inserted(start, model@, read, paths, read.len() as int);
    }
    Ok(documents)
}

/// A link resolves to a class that a source registers, whether the source
/// is passed over before or after the source that declares the link.
///
/// After a first pass over the documents `first` and then over the
/// documents `second` that has not stopped, links from any class to the
/// classes of the keys `targets` are all inserted, if each of the keys is
/// the class key of a declaration of `first` or of `second`.
pub proof fn law_forward_reference(
    store: ClassesView,
    model: Seq<ArticleTypeView>,
    first: Seq<ReadFsDocumentView>,
    first_draws: Option<Seq<Seq<u16>>>,
    second: Seq<ReadFsDocumentView>,
    second_draws: Option<Seq<Seq<u16>>>,
    link_type: LinkTypeId,
    from: usize,
    targets: Seq<Seq<char>>,
)
    requires
        register_documents(
            register_documents(pass_from(store), model, first, first_draws, first.len() as int),
            model,
            second,
            second_draws,
            second.len() as int,
        ).error is None,
        forall|k: int|
            0 <= k < targets.len() ==> declares_class(first, #[trigger] targets[k])
                || declares_class(second, targets[k]),
    ensures
        link_targets(
            pass_from(
                register_documents(
                    register_documents(
                        pass_from(store),
                        model,
                        first,
                        first_draws,
                        first.len() as int,
                    ),
                    model,
                    second,
                    second_draws,
                    second.len() as int,
                ).store,
            ),
            link_type,
            from,
            targets,
            targets.len() as int,
        ).error is None,
{
    let middle = register_documents(pass_from(store), model, first, first_draws, first.len() as int);
    let end = register_documents(middle, model, second, second_draws, second.len() as int);
    lemma_register_documents_extends(pass_from(store), model, first, first_draws, first.len() as int);
    lemma_register_documents_extends(middle, model, second, second_draws, second.len() as int);
    assert forall|k: int| 0 <= k < targets.len() implies end.store.class_map.contains_key(
        #[trigger] targets[k],
    ) by {
        if declares_class(first, targets[k]) {
            let (i, j) = choose|i: int, j: int|
                0 <= i < first.len() && 0 <= j < first[i].document.read_articles.len() && (
                #[trigger] first[i].document.read_articles[j]).class_key == targets[k];
            assert(middle.store.class_map.contains_key(
                first[i].document.read_articles[j].class_key,
            ));
        } else {
            let (i, j) = choose|i: int, j: int|
                0 <= i < second.len() && 0 <= j < second[i].document.read_articles.len() && (
                #[trigger] second[i].document.read_articles[j]).class_key == targets[k];
            assert(end.store.class_map.contains_key(
                second[i].document.read_articles[j].class_key,
            ));
        }
    }
    lemma_link_targets_registered(
        pass_from(end.store),
        link_type,
        from,
        targets,
        targets.len() as int,
    );
}

/// The first pass over the first `n` of the dependencies `dependencies`,
/// in order: a pass over the documents of each, with the draws at the
/// index of a dependency for its documents where it is obfuscated, and
/// without draws where it is not.
pub open spec fn register_dependencies(
    start: Pass,
    model: Seq<ArticleTypeView>,
    dependencies: Seq<ReadDependencyView>,
    draws: Seq<Seq<Seq<u16>>>,
    n: int,
) -> Pass
    decreases n,
{
    if n <= 0 {
        start
    } else {
        register_documents(
            register_dependencies(start, model, dependencies, draws, n - 1),
            model,
            dependencies[n - 1].documents,
            draws_if(dependencies[n - 1].inclusion == Include::Obfuscated, draws[n - 1]),
            dependencies[n - 1].documents.len() as int,
        )
    }
}

/// The second pass over one dependency: a pass over its documents, of
/// which the documents that are made are kept where the dependency is
/// included whole.
pub open spec fn link_dependency(
    binding: Binding,
    model: Seq<ArticleTypeView>,
    dependency: ReadDependencyView,
    project_paths: Seq<Seq<char>>,
) -> Binding {
    let own = link_documents(
        Binding { pass: binding.pass, documents: Seq::empty() },
        model,
        dependency.documents,
        project_paths,
        dependency.documents.len() as int,
    );
    Binding {
        pass: own.pass,
        documents: if dependency.inclusion == Include::All && own.pass.error is None {
            binding.documents + own.documents
        } else {
            binding.documents
        },
    }
}

/// The second pass over the first `n` of the dependencies `dependencies`.
pub open spec fn link_dependencies(
    start: Binding,
    model: Seq<ArticleTypeView>,
    dependencies: Seq<ReadDependencyView>,
    project_paths: Seq<Seq<char>>,
    n: int,
) -> Binding
    decreases n,
{
    if n <= 0 {
        start
    } else {
        link_dependency(
            link_dependencies(start, model, dependencies, project_paths, n - 1),
            model,
            dependencies[n - 1],
            project_paths,
        )
    }
}

/// The graph and the documents of a project.
///
/// The first pass registers the declarations of the documents of the
/// project and then those of each dependency, in order. The second pass
/// starts when the first is done: it goes over the documents of the
/// project and then over those of each dependency. The documents of the
/// project are those of its own and those of the dependencies that are
/// included whole. The first error of either pass is the outcome.
pub open spec fn compile_graph(
    model: Seq<ArticleTypeView>,
    project_paths: Seq<Seq<char>>,
    documents: Seq<ReadFsDocumentView>,
    dependencies: Seq<ReadDependencyView>,
    draws: Seq<Seq<Seq<u16>>>,
) -> Result<(ClassesView, Seq<FsDocumentView>), Seq<char>> {
    let first = register_dependencies(
        register_documents(
            pass_from(ClassesView::empty()),
            model,
            documents,
            None,
            documents.len() as int,
        ),
        model,
        dependencies,
        draws,
        dependencies.len() as int,
    );
    match first.error {
        Some(e) => Err(e),
        None => {
            let second = link_dependencies(
                link_documents(
                    binding_from(first.store),
                    model,
                    documents,
                    project_paths,
                    documents.len() as int,
                ),
                model,
                dependencies,
                project_paths,
                dependencies.len() as int,
            );
            match second.pass.error {
                Some(e) => Err(e),
                None => Ok((second.pass.store, second.documents)),
            }
        },
    }
}

/// What a result of compiling holds.
pub open spec fn compile_view(r: Result<(Classes, Vec<FsDocument>), String>) -> Result<
    (ClassesView, Seq<FsDocumentView>),
    Seq<char>,
> {
    match r {
        Ok((classes, documents)) => Ok((classes@, views(documents@))),
        Err(e) => Err(e@),
    }
}

/// A first pass over dependencies depends on the draws for those
/// dependencies only.
pub proof fn lemma_dependencies_agree(
    start: Pass,
    model: Seq<ArticleTypeView>,
    dependencies: Seq<ReadDependencyView>,
    first: Seq<Seq<Seq<u16>>>,
    second: Seq<Seq<Seq<u16>>>,
    n: int,
)
    requires
        forall|k: int| 0 <= k < n ==> first[k] == second[k],
    ensures
        register_dependencies(start, model, dependencies, first, n) == register_dependencies(
            start,
            model,
            dependencies,
            second,
            n,
        ),
    decreases n,
{
    if n > 0 {
        lemma_dependencies_agree(start, model, dependencies, first, second, n - 1);
    }
}

/// A first pass over dependencies that has stopped after `n` of them is
/// the same after more of them.
pub proof fn lemma_dependencies_stay(
    start: Pass,
    model: Seq<ArticleTypeView>,
    dependencies: Seq<ReadDependencyView>,
    draws: Seq<Seq<Seq<u16>>>,
    n: int,
    m: int,
)
    requires
        n <= m,
        register_dependencies(start, model, dependencies, draws, n).error is Some,
    ensures
        register_dependencies(start, model, dependencies, draws, m) == register_dependencies(
            start,
            model,
            dependencies,
            draws,
            n,
        ),
    decreases m - n,
{
    if n < m {
        lemma_dependencies_stay(start, model, dependencies, draws, n, m - 1);
        let before = register_dependencies(start, model, dependencies, draws, m - 1);
        lemma_documents_stay(
            before,
            model,
            dependencies[m - 1].documents,
            draws_if(dependencies[m - 1].inclusion == Include::Obfuscated, draws[m - 1]),
            0,
            dependencies[m - 1].documents.len() as int,
        );
    }
}

/// A second pass over dependencies that has stopped after `n` of them is
/// the same after more of them.
pub proof fn lemma_link_dependencies_stay(
    start: Binding,
    model: Seq<ArticleTypeView>,
    dependencies: Seq<ReadDependencyView>,
    project_paths: Seq<Seq<char>>,
    n: int,
    m: int,
)
    requires
        n <= m,
        link_dependencies(start, model, dependencies, project_paths, n).pass.error is Some,
    ensures
        link_dependencies(start, model, dependencies, project_paths, m) == link_dependencies(
            start,
            model,
            dependencies,
            project_paths,
            n,
        ),
    decreases m - n,
{
    if n < m {
        lemma_link_dependencies_stay(start, model, dependencies, project_paths, n, m - 1);
        let before = link_dependencies(start, model, dependencies, project_paths, m - 1);
        lemma_link_documents_stay(
            Binding { pass: before.pass, documents: Seq::empty() },
            model,
            dependencies[m - 1].documents,
            project_paths,
            0,
            dependencies[m - 1].documents.len() as int,
        );
    }
}

/// Whether the declarations of the documents of the first `n` of
/// `dependencies` are registered in `store`.
pub open spec fn dependencies_registered(
    store: ClassesView,
    dependencies: Seq<ReadDependencyView>,
    n: int,
) -> bool {
    forall|k: int|
        0 <= k < n ==> classes_registered(store, (#[trigger] dependencies[k]).documents)
}

/// Builds the graph of a project and makes its documents.
///
/// The first pass registers the articles and classes of the documents of
/// the project and then of each dependency in order; the articles of an
/// obfuscated dependency get obfuscated keys. Only when all are registered
/// does the second pass insert the links of every source and make the
/// documents, so that a link resolves whichever source registers its
/// target. The documents of a dependency become documents of the project
/// where the dependency is included whole. The first error ends the
/// compilation, and nothing is made. In the graph that is made, every link
/// that a document of the project or of a dependency declares is among the
/// links out of the class that declares it and among the links into its
/// target.
pub fn compile(
    model: &Model,
    resolution_path: &[String],
    read_documents: &[ReadFsDocument],
    read_dependencies: &[ReadDependency],
) -> (r: Result<(Classes, Vec<FsDocument>), String>)
    requires
        model_wf(model@),
    ensures
        exists|draws: Seq<Seq<Seq<u16>>>|
            compile_view(r) == #[trigger] compile_graph(
                model@,
                views(resolution_path@),
                views(read_documents@),
                views(read_dependencies@),
                draws,
            ),
        r matches Ok((classes, _)) ==> classes@.wf() && classes@.populated() && classes@.typed_in(
            model@.len(),
        ) && classes@.links_among(model_link_types(model@)),
        r matches Ok((classes, documents)) ==> documents_bound(classes@, views(documents@)),
        r matches Ok((classes, _)) ==> documents_inserted(
            classes@,
            classes@,
            model@,
            views(read_documents@),
        ),
        r matches Ok((classes, _)) ==> forall|k: int|
            0 <= k < read_dependencies.len() ==> documents_inserted(
                classes@,
                classes@,
                model@,
                (#[trigger] views(read_dependencies@)[k]).documents,
            ),
{
    let ghost paths = views(resolution_path@);
    let ghost own = views(read_documents@);
    let ghost dependencies = views(read_dependencies@);
    let mut classes = Classes::new();
    let ghost opening = register_documents(
        pass_from(ClassesView::empty()),
        model@,
        own,
        None,
        own.len() as int,
    );
    let ghost mut draws: Seq<Seq<Seq<u16>>> = Seq::empty();
    match process_documents_1(model, &mut classes, read_documents, resolution_path, false) {
        Err(e) => {
            proof {
                lemma_dependencies_stay(opening, model@, dependencies, draws, 0, dependencies.len() as int);
                assert(compile_graph(model@, paths, own, dependencies, draws) == Err::<
                    (ClassesView, Seq<FsDocumentView>),
                    Seq<char>,
                >(e@));
            }
            return Err(e);
        },
        Ok(_) => {},
    }
    let mut k: usize = 0;
    while k < read_dependencies.len()
        invariant
            k <= read_dependencies.len(),
            model_wf(model@),
            classes@.wf(),
            classes@.links_among(model_link_types(model@)),
            classes@.populated(),
            classes@.typed_in(model@.len()),
            paths == views(resolution_path@),
            own == views(read_documents@),
            dependencies == views(read_dependencies@),
            opening == register_documents(
                pass_from(ClassesView::empty()),
                model@,
                own,
                None,
                own.len() as int,
            ),
            draws.len() == k,
            classes_registered(classes@, own),
            dependencies_registered(classes@, dependencies, k as int),
            pass_from(classes@) == register_dependencies(
                opening,
                model@,
                dependencies,
                draws,
                k as int,
            ),
        decreases read_dependencies.len() - k,
    {
        let dependency = &read_dependencies[k];
        assert(dependencies[k as int] == dependency@);
        let obfuscate = match dependency.inclusion {
            Include::Obfuscated => true,
            _ => false,
        };
        let ghost before = classes@;
        let r = process_documents_1(
            model,
            &mut classes,
            dependency.documents.as_slice(),
            resolution_path,
            obfuscate,
        );
        proof {
            let documents = dependencies[k as int].documents;
            let rows = choose|rows: Seq<Seq<u16>>|
                pass_of(classes@, r) == #[trigger] register_documents(
                    pass_from(before),
                    model@,
                    documents,
                    draws_if(obfuscate, rows),
                    documents.len() as int,
                );
            lemma_dependencies_agree(opening, model@, dependencies, draws, draws.push(rows), k as int);
            draws = draws.push(rows);
            assert(register_dependencies(opening, model@, dependencies, draws, k + 1) == pass_of(
                classes@,
                r,
            ));
            lemma_registered_extends(before, classes@, own);
            assert forall|i: int| 0 <= i < k implies classes_registered(
                classes@,
                (#[trigger] dependencies[i]).documents,
            ) by {
                lemma_registered_extends(before, classes@, dependencies[i].documents);
            }
        }
        match r {
            Err(e) => {
                proof {
                    lemma_dependencies_stay(
                        opening,
                        model@,
                        dependencies,
                        draws,
                        k + 1,
                        dependencies.len() as int,
                    );
                    assert(compile_graph(model@, paths, own, dependencies, draws) == Err::<
                        (ClassesView, Seq<FsDocumentView>),
                        Seq<char>,
                    >(e@));
                }
                return Err(e);
            },
            Ok(_) => {},
        }
        k = k + 1;
    }
    let ghost registered = classes@;
    let ghost linking = link_documents(
        binding_from(registered),
        model@,
        own,
        paths,
        own.len() as int,
    );
    let mut documents = match process_documents_2(
        model,
        &mut classes,
        read_documents,
        resolution_path,
    ) {
        Ok(documents) => documents,
        Err(e) => {
            proof {
                lemma_link_dependencies_stay(
                    linking,
                    model@,
                    dependencies,
                    paths,
                    0,
                    dependencies.len() as int,
                );
                assert(compile_graph(model@, paths, own, dependencies, draws) == Err::<
                    (ClassesView, Seq<FsDocumentView>),
                    Seq<char>,
                >(e@));
            }
            return Err(e);
        },
    };
    proof {
        lemma_links_only_keeps(registered, classes@, model@.len());
    }
    let mut k: usize = 0;
    while k < read_dependencies.len()
        invariant
            k <= read_dependencies.len(),
            model_wf(model@),
            registered.wf(),
            classes_registered(registered, own),
            classes@.wf(),
            classes@.links_among(model_link_types(model@)),
            classes@.populated(),
            classes@.typed_in(model@.len()),
            links_only(registered, classes@),
            documents_inserted(registered, classes@, model@, own),
            forall|i: int|
                0 <= i < k ==> documents_inserted(
                    registered,
                    classes@,
                    model@,
                    (#[trigger] dependencies[i]).documents,
                ),
            dependencies_registered(registered, dependencies, dependencies.len() as int),
            paths == views(resolution_path@),
            own == views(read_documents@),
            dependencies == views(read_dependencies@),
            draws.len() == read_dependencies.len(),
            pass_from(registered) == register_dependencies(
                register_documents(
                    pass_from(ClassesView::empty()),
                    model@,
                    own,
                    None,
                    own.len() as int,
                ),
                model@,
                dependencies,
                draws,
                dependencies.len() as int,
            ),
            linking == link_documents(
                binding_from(registered),
                model@,
                own,
                paths,
                own.len() as int,
            ),
            (Binding { pass: pass_from(classes@), documents: views(documents@) })
                == link_dependencies(linking, model@, dependencies, paths, k as int),
            documents_bound(classes@, views(documents@)),
        decreases read_dependencies.len() - k,
    {
        let dependency = &read_dependencies[k];
        assert(dependencies[k as int] == dependency@);
        let ghost before = classes@;
        let ghost made = views(documents@);
        proof {
            assert(classes_registered(registered, dependencies[k as int].documents));
            assert(classes@.class_map == registered.class_map);
        }
        let mut pages = match process_documents_2(
            model,
            &mut classes,
            dependency.documents.as_slice(),
            resolution_path,
        ) {
            Ok(pages) => pages,
            Err(e) => {
                proof {
                    lemma_link_dependencies_stay(
                        linking,
                        model@,
                        dependencies,
                        paths,
                        k + 1,
                        dependencies.len() as int,
                    );
                    assert(compile_graph(model@, paths, own, dependencies, draws) == Err::<
                        (ClassesView, Seq<FsDocumentView>),
                        Seq<char>,
                    >(e@));
                }
                return Err(e);
            },
        };
        proof {
            lemma_links_only_keeps(before, classes@, model@.len());
            assert forall|i: int| 0 <= i < made.len() implies structure_bound(
                classes@,
                (#[trigger] made[i]).structure,
            ) by {
                lemma_bound_links_only(before, classes@, made[i].structure);
            }
            lemma_links_only_frame(registered, before);
            lemma_documents_rebased(
                before,
                registered,
                classes@,
                model@,
                dependencies[k as int].documents,
            );
            lemma_documents_inserted_grown(registered, before, classes@, model@, own);
            assert forall|i: int| 0 <= i < k + 1 implies documents_inserted(
                registered,
                classes@,
                model@,
                (#[trigger] dependencies[i]).documents,
            ) by {
                if i < k {
                    lemma_documents_inserted_grown(
                        registered,
                        before,
                        classes@,
                        model@,
                        dependencies[i].documents,
                    );
                }
            }
        }
        match dependency.inclusion {
            Include::All => {
                let ghost added = views(pages@);
                documents.append(&mut pages);
                assert(views(documents@) =~= made + added);
                assert forall|i: int| 0 <= i < views(documents@).len() implies structure_bound(
                    classes@,
                    (#[trigger] views(documents@)[i]).structure,
                ) by {
                    if i < made.len() {
                        assert(views(documents@)[i] == made[i]);
                    } else {
                        assert(views(documents@)[i] == added[i - made.len()]);
                    }
                }
            },
            _ => {},
        }
        k = k + 1;
    }
    assert(compile_graph(model@, paths, own, dependencies, draws) == Ok::<
        (ClassesView, Seq<FsDocumentView>),
        Seq<char>,
    >((classes@, views(documents@))));
    proof {
        lemma_links_only_frame(registered, classes@);
        lemma_documents_rebased(registered, classes@, classes@, model@, own);
        assert forall|i: int| 0 <= i < dependencies.len() implies documents_inserted(
            classes@,
            classes@,
            model@,
            (#[trigger] dependencies[i]).documents,
        ) by {
            lemma_documents_rebased(
                registered,
                classes@,
                classes@,
                model@,
                dependencies[i].documents,
            );
        }
    }
    Ok((classes, documents))
}

/// The draws matter only where a dependency is obfuscated: the first pass
/// over dependencies of which none is obfuscated is the same whatever the
/// draws, and so is the graph of the project.
pub proof fn law_draws_only_obfuscate(
    model: Seq<ArticleTypeView>,
    project_paths: Seq<Seq<char>>,
    documents: Seq<ReadFsDocumentView>,
    dependencies: Seq<ReadDependencyView>,
    first: Seq<Seq<Seq<u16>>>,
    second: Seq<Seq<Seq<u16>>>,
)
    requires
        forall|k: int|
            0 <= k < dependencies.len() ==> (#[trigger] dependencies[k]).inclusion
                != Include::Obfuscated,
    ensures
        compile_graph(model, project_paths, documents, dependencies, first) == compile_graph(
            model,
            project_paths,
            documents,
            dependencies,
            second,
        ),
{
    let opening = register_documents(
        pass_from(ClassesView::empty()),
        model,
        documents,
        None,
        documents.len() as int,
    );
    lemma_dependencies_without_draws(
        opening,
        model,
        dependencies,
        first,
        second,
        dependencies.len() as int,
    );
}

/// A first pass over dependencies of which none is obfuscated is the same
/// whatever the draws.
pub proof fn lemma_dependencies_without_draws(
    start: Pass,
    model: Seq<ArticleTypeView>,
    dependencies: Seq<ReadDependencyView>,
    first: Seq<Seq<Seq<u16>>>,
    second: Seq<Seq<Seq<u16>>>,
    n: int,
)
    requires
        n <= dependencies.len(),
        forall|k: int|
            0 <= k < dependencies.len() ==> (#[trigger] dependencies[k]).inclusion
                != Include::Obfuscated,
    ensures
        register_dependencies(start, model, dependencies, first, n) == register_dependencies(
            start,
            model,
            dependencies,
            second,
            n,
        ),
    decreases n,
{
    if n > 0 {
        lemma_dependencies_without_draws(start, model, dependencies, first, second, n - 1);
        assert(dependencies[n - 1].inclusion != Include::Obfuscated);
    }
}

} // verus!
