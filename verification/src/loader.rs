//! Building the platform index from the help contents, in one pass over
//! the table of contents: the global context gives the global methods and
//! properties, the catalogues of enumerations and of types give the types
//! (all of them in one collection keyed by the Russian name).
use vstd::prelude::*;

use crate::content::HbkContent;
use crate::entities::{MethodModel, PropertyModel, TypeModel};
use crate::hbk_models::{page_model, pages_model, Page, PageModel};
use crate::mapper::{
    enum_type_of, lemma_enum_type_of, lemma_methods_of, lemma_object_type_of, lemma_properties_of,
    method_of, methods_from, object_type_of, properties_from, property_of, type_from_enum,
    type_from_object,
};
use crate::page_models::{MethodInfoModel, PropertyInfoModel};
use crate::storage::{insert_model, insert_models, lemma_insert_model, models_of, PlatformIndex};
use crate::visitor::{
    collect_global_methods, collect_global_properties, collect_root_pages, drill_down,
    enum_of_page, global_methods_among, global_properties_among, leaves_under, object_of_page,
    refs_model, roots_of, visit_enum_page, visit_type_page,
};

verus! {

/// The leaf pages under each of the roots, in order.
pub open spec fn leaves_of_roots(rs: Seq<PageModel>) -> Seq<PageModel>
    decreases rs.len(),
{
    if rs.len() == 0 {
        Seq::empty()
    } else {
        leaves_of_roots(rs.drop_last()) + leaves_under(rs.last())
    }
}

/// The enumeration types of the pages that can be read.
pub open spec fn enum_types_of(files: Map<Seq<char>, Option<Seq<u8>>>, ps: Seq<PageModel>) -> Seq<TypeModel>
    decreases ps.len(),
{
    if ps.len() == 0 {
        Seq::empty()
    } else {
        let prev = enum_types_of(files, ps.drop_last());
        match enum_of_page(files, ps.last()) {
            Some(e) => prev.push(enum_type_of(e)),
            None => prev,
        }
    }
}

/// The ordinary types of the pages that can be read.
pub open spec fn object_types_of(files: Map<Seq<char>, Option<Seq<u8>>>, ps: Seq<PageModel>) -> Seq<TypeModel>
    decreases ps.len(),
{
    if ps.len() == 0 {
        Seq::empty()
    } else {
        let prev = object_types_of(files, ps.drop_last());
        match object_of_page(files, ps.last()) {
            Some(o) => prev.push(object_type_of(o)),
            None => prev,
        }
    }
}

/// The types of the index: the enumerations, then the ordinary types, each
/// inserted by key.
pub open spec fn index_types(files: Map<Seq<char>, Option<Seq<u8>>>, pages: Seq<PageModel>) -> Seq<TypeModel> {
    let roots = roots_of(pages);
    insert_models(
        insert_models(Seq::empty(), enum_types_of(files, leaves_of_roots(roots.enums))),
        object_types_of(files, leaves_of_roots(roots.types)),
    )
}

/// The global methods of the index (none without a global context).
pub open spec fn index_global_methods(files: Map<Seq<char>, Option<Seq<u8>>>, pages: Seq<PageModel>) -> Seq<MethodModel> {
    match roots_of(pages).global_context {
        Some(g) => global_methods_among(files, g.children).map_values(|m: MethodInfoModel| method_of(m)),
        None => Seq::empty(),
    }
}

/// The global properties of the index (none without a global context).
pub open spec fn index_global_properties(files: Map<Seq<char>, Option<Seq<u8>>>, pages: Seq<PageModel>) -> Seq<PropertyModel> {
    match roots_of(pages).global_context {
        Some(g) => global_properties_among(files, g.children).map_values(
            |p: PropertyInfoModel| property_of(p),
        ),
        None => Seq::empty(),
    }
}

/// Builds the index from opened help contents.
pub fn build_index(content: &mut HbkContent) -> (r: PlatformIndex)
    ensures
        r.wf(),
        final(content).files() == old(content).files(),
        r.global_methods.deep_view() == index_global_methods(old(content).files(), old(content).toc_pages()),
        r.global_properties.deep_view() == index_global_properties(old(content).files(), old(content).toc_pages()),
        models_of(r.type_seq()) == index_types(old(content).files(), old(content).toc_pages()),
{
    let ghost files = content.files();
    let mut index = PlatformIndex::new();
    let pages = content.copy_toc_pages();
    let ghost all = pages_model(pages@);
    let roots = collect_root_pages(pages.as_slice());
    let ghost rm = roots.model();
    match roots.global_context {
        Some(g) => {
            let ms = collect_global_methods(content, g);
            index.global_methods = methods_from(&ms);
            let ps = collect_global_properties(content, g);
            index.global_properties = properties_from(&ps);
            proof {
                lemma_methods_of(ms);
                lemma_properties_of(ps);
            }
        },
        None => {
            proof {
                assert(index.global_methods.deep_view() =~= Seq::<MethodModel>::empty());
                assert(index.global_properties.deep_view() =~= Seq::<PropertyModel>::empty());
            }
        },
    }
    let ghost gm = index.global_methods.deep_view();
    let ghost gp = index.global_properties.deep_view();
    // Enumerations.
    let mut enum_pages: Vec<&Page> = Vec::new();
    proof {
        assert(refs_model(enum_pages@) =~= Seq::<PageModel>::empty());
        assert(rm.enums.take(0) =~= Seq::<PageModel>::empty());
    }
    let mut j: usize = 0;
    while j < roots.enums.len()
        invariant
            j <= roots.enums@.len(),
            rm == roots.model(),
            refs_model(enum_pages@) == leaves_of_roots(rm.enums.take(j as int)),
        decreases roots.enums.len() - j,
    {
        proof {
            let t = rm.enums.take(j + 1);
            assert(t.drop_last() =~= rm.enums.take(j as int));
            assert(t.last() == page_model(*roots.enums@[j as int]));
        }
        drill_down(roots.enums[j], &mut enum_pages);
        j = j + 1;
    }
    proof {
        assert(rm.enums.take(rm.enums.len() as int) =~= rm.enums);
        assert(models_of(index.type_seq()) =~= Seq::<TypeModel>::empty());
    }
    let ghost eps = refs_model(enum_pages@);
    let mut k: usize = 0;
    while k < enum_pages.len()
        invariant
            k <= enum_pages@.len(),
            eps == refs_model(enum_pages@),
            index.wf(),
            content.files() == files,
            index.global_methods.deep_view() == gm,
            index.global_properties.deep_view() == gp,
            models_of(index.type_seq()) == insert_models(Seq::empty(), enum_types_of(files, eps.take(k as int))),
        decreases enum_pages.len() - k,
    {
        proof {
            let t = eps.take(k + 1);
            assert(t.drop_last() =~= eps.take(k as int));
            assert(t.last() == page_model(*enum_pages@[k as int]));
        }
        let ghost ts = enum_types_of(files, eps.take(k as int));
        let ghost before = models_of(index.type_seq());
        match visit_enum_page(content, enum_pages[k]) {
            Some(info) => {
                let ty = type_from_enum(&info);
                proof {
                    lemma_enum_type_of(info);
                    lemma_insert_model(index, ty);
                    assert(enum_types_of(files, eps.take(k + 1)) == ts.push(ty.deep_view()));
                    assert(ts.push(ty.deep_view()).drop_last() =~= ts);
                }
                index.insert_type(ty);
                proof {
                    assert(models_of(index.type_seq()) == insert_model(before, ty.deep_view()));
                }
            },
            None => {
                proof {
                    assert(enum_types_of(files, eps.take(k + 1)) == ts);
                }
            },
        }
        k = k + 1;
    }
    proof {
        assert(eps.take(eps.len() as int) =~= eps);
    }
    let ghost after_enums = models_of(index.type_seq());
    // Ordinary types.
    let mut type_pages: Vec<&Page> = Vec::new();
    proof {
        assert(refs_model(type_pages@) =~= Seq::<PageModel>::empty());
        assert(rm.types.take(0) =~= Seq::<PageModel>::empty());
    }
    let mut j: usize = 0;
    while j < roots.types.len()
        invariant
            j <= roots.types@.len(),
            rm == roots.model(),
            refs_model(type_pages@) == leaves_of_roots(rm.types.take(j as int)),
        decreases roots.types.len() - j,
    {
        proof {
            let t = rm.types.take(j + 1);
            assert(t.drop_last() =~= rm.types.take(j as int));
            assert(t.last() == page_model(*roots.types@[j as int]));
        }
        drill_down(roots.types[j], &mut type_pages);
        j = j + 1;
    }
    proof {
        assert(rm.types.take(rm.types.len() as int) =~= rm.types);
    }
    let ghost tps = refs_model(type_pages@);
    let mut k: usize = 0;
    while k < type_pages.len()
        invariant
            k <= type_pages@.len(),
            tps == refs_model(type_pages@),
            index.wf(),
            content.files() == files,
            index.global_methods.deep_view() == gm,
            index.global_properties.deep_view() == gp,
            models_of(index.type_seq()) == insert_models(after_enums, object_types_of(files, tps.take(k as int))),
        decreases type_pages.len() - k,
    {
        proof {
            let t = tps.take(k + 1);
            assert(t.drop_last() =~= tps.take(k as int));
            assert(t.last() == page_model(*type_pages@[k as int]));
        }
        let ghost ts = object_types_of(files, tps.take(k as int));
        let ghost before = models_of(index.type_seq());
        match visit_type_page(content, type_pages[k]) {
            Some(info) => {
                let ty = type_from_object(&info);
                proof {
                    lemma_object_type_of(info);
                    lemma_insert_model(index, ty);
                    assert(object_types_of(files, tps.take(k + 1)) == ts.push(ty.deep_view()));
                    assert(ts.push(ty.deep_view()).drop_last() =~= ts);
                }
                index.insert_type(ty);
                proof {
                    assert(models_of(index.type_seq()) == insert_model(before, ty.deep_view()));
                }
            },
            None => {
                proof {
                    assert(object_types_of(files, tps.take(k + 1)) == ts);
                }
            },
        }
        k = k + 1;
    }
    proof {
        assert(tps.take(tps.len() as int) =~= tps);
    }
    index
}

} // verus!
