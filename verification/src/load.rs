//! Completing a model load: decoding the referenced material libraries and
//! linking each group to the material it names.
//!
//! The host program fetches each library named by the parsed document, in
//! order, and reports the outcomes; everything after that point is decided
//! here. A single failed or invalid library aborts the whole load — no
//! partial model is ever returned.

use vstd::prelude::*;
use vstd::string::StringSliceAdditionalSpecFns;
use vstd::utf8::decode_utf8_encode_utf8;

use crate::error::FetchError;
use crate::fetch::{complete_text, spec_complete_text, FetchOutcome};
use crate::model::{Material, MaterialView, Model, ModelView};
use crate::mtl::{parse_mtl, spec_parse_mtl};

verus! {

/// The materials a library outcome contributes, where it decodes at all.
pub open spec fn spec_outcome_materials(o: FetchOutcome) -> Seq<MaterialView> {
    match o {
        FetchOutcome::Data(b) => match spec_parse_mtl(b@) {
            Some(ms) => ms,
            None => Seq::empty(),
        },
        _ => Seq::empty(),
    }
}

/// What decoding the fetched material libraries comes to: the materials of
/// every library, in fetch order, or the error of the first library that
/// was missing, unreachable, not UTF-8 text, or invalid.
pub open spec fn spec_collect_materials(outs: Seq<FetchOutcome>) -> Result<
    Seq<MaterialView>,
    FetchError,
>
    decreases outs.len(),
{
    if outs.len() == 0 {
        Ok(Seq::empty())
    } else {
        match spec_complete_text(outs[0]) {
            Err(e) => Err(e),
            Ok(_) => match outs[0] {
                FetchOutcome::Data(b) => match spec_parse_mtl(b@) {
                    None => Err(FetchError::ParseError),
                    Some(ms) => match spec_collect_materials(outs.drop_first()) {
                        Err(e) => Err(e),
                        Ok(more) => Ok(ms + more),
                    },
                },
                _ => Err(FetchError::NotFound),
            },
        }
    }
}

/// The position of the first material named `name`, if any.
pub open spec fn spec_find_material(ms: Seq<MaterialView>, name: Seq<u8>) -> Option<int>
    decreases ms.len(),
{
    if ms.len() == 0 {
        None
    } else if ms[0].name == name {
        Some(0)
    } else {
        match spec_find_material(ms.drop_first(), name) {
            Some(i) => Some(i + 1),
            None => None,
        }
    }
}

/// Links one model: a model that names no material gets no identifier; one
/// that names a material gets the position of the first material of that
/// name, and fails when the list defines none.
pub open spec fn spec_link_model(m: ModelView, ms: Seq<MaterialView>) -> Option<ModelView> {
    match m.material_name {
        None => Some(ModelView { material_id: None, ..m }),
        Some(nm) => match spec_find_material(ms, nm) {
            None => None,
            Some(i) => Some(ModelView { material_id: Some(i), ..m }),
        },
    }
}

/// Links every model, or fails on the first that names a missing material.
pub open spec fn spec_link_models(models: Seq<ModelView>, ms: Seq<MaterialView>) -> Option<
    Seq<ModelView>,
>
    decreases models.len(),
{
    if models.len() == 0 {
        Some(Seq::empty())
    } else {
        match (spec_link_model(models[0], ms), spec_link_models(models.drop_first(), ms)) {
            (Some(m), Some(rest)) => Some(seq![m] + rest),
            _ => None,
        }
    }
}

/// What finishing a load comes to: the decoded materials and the linked
/// models, or the first error among the libraries and the linking.
pub open spec fn spec_finish(models: Seq<ModelView>, outs: Seq<FetchOutcome>) -> Result<
    (Seq<ModelView>, Seq<MaterialView>),
    FetchError,
> {
    match spec_collect_materials(outs) {
        Err(e) => Err(e),
        Ok(ms) => match spec_link_models(models, ms) {
            None => Err(FetchError::ParseError),
            Some(linked) => Ok((linked, ms)),
        },
    }
}

proof fn lemma_find_skip(ms: Seq<MaterialView>, name: Seq<u8>, i: int)
    requires
        0 <= i <= ms.len(),
        forall|j: int| 0 <= j < i ==> #[trigger] ms[j].name != name,
    ensures
        spec_find_material(ms, name) == match spec_find_material(ms.skip(i), name) {
            Some(k) => Some(k + i),
            None => None::<int>,
        },
    decreases i,
{
    if i == 0 {
        assert(ms.skip(0) =~= ms);
    } else {
        assert(ms.skip(1) =~= ms.drop_first());
        assert(forall|j: int| 0 <= j < i - 1 ==> #[trigger] ms.drop_first()[j].name != name);
        lemma_find_skip(ms.drop_first(), name, i - 1);
        assert(ms.drop_first().skip(i - 1) =~= ms.skip(i));
    }
}

/// Where a material is found, it is in range and carries the name sought.
pub proof fn lemma_find_material_sound(ms: Seq<MaterialView>, name: Seq<u8>)
    ensures
        match spec_find_material(ms, name) {
            Some(i) => 0 <= i < ms.len() && ms[i].name == name,
            None => true,
        },
    decreases ms.len(),
{
    if ms.len() > 0 && ms[0].name != name {
        lemma_find_material_sound(ms.drop_first(), name);
    }
}

fn find_material(mats: &Vec<Material>, name: &Vec<u8>) -> (r: Option<usize>)
    ensures
        r is Some <==> spec_find_material(mats.deep_view(), name@) is Some,
        r matches Some(i) ==> spec_find_material(mats.deep_view(), name@) == Some(i as int),
{
    let ghost msd = mats.deep_view();
    let n = mats.len();
    for i in 0..n
        invariant
            n == mats@.len() == msd.len(),
            msd == mats.deep_view(),
            forall|j: int| 0 <= j < i ==> #[trigger] msd[j].name != name@,
    {
        if crate::text::bytes_eq(mats[i].name.as_slice(), name.as_slice()) {
            proof {
                assert(msd[i as int].name == name@);
                crate::text::lemma_skip_step(msd, i as int);
                assert(spec_find_material(msd.skip(i as int), name@) == Some(0int));
                lemma_find_skip(msd, name@, i as int);
            }
            return Some(i);
        }
        assert(msd[i as int].name != name@);
    }
    proof {
        assert(msd.skip(n as int) =~= Seq::<MaterialView>::empty());
        lemma_find_skip(msd, name@, n as int);
    }
    None
}

/// Finishes a load: decodes each fetched material library, concatenates
/// their materials in order, and links every model of the parsed document
/// to the material it names. Exactly as `spec_finish` describes, the first
/// failed or undecodable library aborts the load with its error, a model
/// naming an unknown material aborts it with a parse error, and on success
/// every group of the document comes back, linked.
#[verifier::loop_isolation(false)]
pub fn finish_model(models: Vec<Model>, outcomes: Vec<FetchOutcome>) -> (r: Result<
    (Vec<Model>, Vec<Material>),
    FetchError,
>)
    ensures
        r matches Ok(p) ==> spec_finish(models.deep_view(), outcomes@) == Ok::<
            (Seq<ModelView>, Seq<MaterialView>),
            FetchError,
        >((p.0.deep_view(), p.1.deep_view())),
        r matches Err(e) ==> spec_finish(models.deep_view(), outcomes@) == Err::<
            (Seq<ModelView>, Seq<MaterialView>),
            FetchError,
        >(e),
{
    let ghost outs0 = outcomes@;
    let ghost models0 = models.deep_view();
    let mut outcomes = outcomes;
    let mut mats: Vec<Material> = Vec::new();
    proof {
        assert(mats.deep_view() =~= Seq::<MaterialView>::empty());
    }
    while outcomes.len() > 0
        invariant
            match spec_collect_materials(outcomes@) {
                Ok(more) => spec_collect_materials(outs0) == Ok::<Seq<MaterialView>, FetchError>(
                    mats.deep_view() + more,
                ),
                Err(e) => spec_collect_materials(outs0) == Err::<Seq<MaterialView>, FetchError>(e),
            },
        decreases outcomes@.len(),
    {
        let ghost pre_outs = outcomes@;
        let ghost pre_mats = mats.deep_view();
        let o = outcomes.remove(0);
        proof {
            assert(o == pre_outs[0]);
            assert(outcomes@ =~= pre_outs.drop_first());
        }
        match complete_text(o) {
            Err(e) => {
                proof {
                    assert(spec_collect_materials(pre_outs) == Err::<
                        Seq<MaterialView>,
                        FetchError,
                    >(e));
                }
                return Err(e);
            },
            Ok(text) => {
                let bs = text.as_str().as_bytes();
                proof {
                    assert(spec_complete_text(o) == Ok::<Seq<char>, FetchError>(text@));
                    assert(o is Data);
                    decode_utf8_encode_utf8(o->Data_0@);
                    assert(bs@ == o->Data_0@);
                }
                match parse_mtl(bs) {
                    Err(_) => {
                        proof {
                            assert(spec_parse_mtl(o->Data_0@) is None);
                            assert(spec_collect_materials(pre_outs) == Err::<
                                Seq<MaterialView>,
                                FetchError,
                            >(FetchError::ParseError));
                        }
                        return Err(FetchError::ParseError);
                    },
                    Ok(mut ms_part) => {
                        proof {
                            assert(spec_parse_mtl(o->Data_0@) == Some(ms_part.deep_view()));
                        }
                        let ghost part = ms_part.deep_view();
                        mats.append(&mut ms_part);
                        proof {
                            assert(mats.deep_view() =~~= pre_mats + part);
                            assert(forall|more: Seq<MaterialView>|
                                (pre_mats + part) + more =~= pre_mats + (part + more));
                        }
                    },
                }
            },
        }
    }
    proof {
        assert(outcomes@.len() == 0);
        assert(spec_collect_materials(outcomes@) == Ok::<Seq<MaterialView>, FetchError>(
            Seq::empty(),
        ));
        assert(mats.deep_view() + Seq::<MaterialView>::empty() =~= mats.deep_view());
        assert(spec_collect_materials(outs0) == Ok::<Seq<MaterialView>, FetchError>(
            mats.deep_view(),
        ));
    }
    let ghost msd = mats.deep_view();
    let mut models = models;
    let mut linked: Vec<Model> = Vec::new();
    proof {
        assert(linked.deep_view() =~= Seq::<ModelView>::empty());
        assert(models.deep_view() =~= models0);
    }
    while models.len() > 0
        invariant
            msd == mats.deep_view(),
            match spec_link_models(models.deep_view(), msd) {
                Some(rest) => spec_link_models(models0, msd) == Some(linked.deep_view() + rest),
                None => spec_link_models(models0, msd) is None,
            },
        decreases models@.len(),
    {
        let ghost pre_models = models.deep_view();
        let ghost pre_linked = linked.deep_view();
        let mut m = models.remove(0);
        proof {
            assert(m@ == pre_models[0]);
            assert(models.deep_view() =~= pre_models.drop_first());
        }
        match m.material_name {
            None => {
                m.material_id = None;
                proof {
                    assert(spec_link_model(pre_models[0], msd) == Some(m@));
                }
                linked.push(m);
            },
            Some(ref nm) => {
                match find_material(&mats, nm) {
                    None => {
                        proof {
                            assert(spec_link_model(pre_models[0], msd) is None);
                            assert(spec_link_models(pre_models, msd) is None);
                        }
                        return Err(FetchError::ParseError);
                    },
                    Some(i) => {
                        m.material_id = Some(i);
                        proof {
                            assert(spec_link_model(pre_models[0], msd) == Some(m@));
                        }
                        linked.push(m);
                    },
                }
            },
        }
        proof {
            assert(linked.deep_view() =~= pre_linked.push(
                spec_link_model(pre_models[0], msd)->Some_0,
            ));
            assert(forall|rest: Seq<ModelView>| #![auto]
                pre_linked + (seq![spec_link_model(pre_models[0], msd)->Some_0] + rest)
                    =~= (pre_linked.push(spec_link_model(pre_models[0], msd)->Some_0)) + rest);
        }
    }
    proof {
        assert(spec_link_models(models.deep_view(), msd) == Some(Seq::<ModelView>::empty()));
        assert(linked.deep_view() + Seq::<ModelView>::empty() =~= linked.deep_view());
        assert(spec_link_models(models0, msd) == Some(linked.deep_view()));
        assert(spec_finish(models0, outs0) == Ok::<(Seq<ModelView>, Seq<MaterialView>), FetchError>(
            (linked.deep_view(), msd),
        ));
    }
    Ok((linked, mats))
}

/// Law: no partial model. When any referenced material library fails to
/// fetch — it is missing, the request fails, its bytes are not text, or its
/// text is invalid — the whole load fails; nothing of the model comes back.
pub proof fn lemma_failed_library_fails_load(
    models: Seq<ModelView>,
    outs: Seq<FetchOutcome>,
    i: int,
)
    requires
        0 <= i < outs.len(),
        !(outs[i] is Data),
    ensures
        spec_finish(models, outs) is Err,
{
    lemma_collect_err(outs, i);
}

proof fn lemma_collect_err(outs: Seq<FetchOutcome>, i: int)
    requires
        0 <= i < outs.len(),
        !(outs[i] is Data),
    ensures
        spec_collect_materials(outs) is Err,
    decreases i,
{
    if i > 0 {
        if spec_complete_text(outs[0]) is Ok && outs[0] is Data && spec_parse_mtl(
            outs[0]->Data_0@,
        ) is Some {
            lemma_collect_err(outs.drop_first(), i - 1);
        }
    }
}

/// Law: a finished load keeps every group of the document, in order, with
/// its name and geometry untouched; a group that names a material is linked
/// to a material of exactly that name in the returned list.
pub proof fn lemma_load_links_models(models: Seq<ModelView>, outs: Seq<FetchOutcome>)
    requires
        spec_finish(models, outs) is Ok,
    ensures
        spec_finish(models, outs)->Ok_0.0.len() == models.len(),
        forall|j: int|
            0 <= j < models.len() ==> {
                let linked = #[trigger] spec_finish(models, outs)->Ok_0.0[j];
                let ms = spec_finish(models, outs)->Ok_0.1;
                &&& linked.name == models[j].name
                &&& linked.mesh == models[j].mesh
                &&& linked.material_name == models[j].material_name
                &&& match models[j].material_name {
                    None => linked.material_id is None,
                    Some(nm) => linked.material_id matches Some(mi) && 0 <= mi < ms.len()
                        && ms[mi].name == nm,
                }
            },
{
    let ms = spec_collect_materials(outs)->Ok_0;
    lemma_link_models_pointwise(models, ms);
}

proof fn lemma_link_models_pointwise(models: Seq<ModelView>, ms: Seq<MaterialView>)
    requires
        spec_link_models(models, ms) is Some,
    ensures
        spec_link_models(models, ms)->Some_0.len() == models.len(),
        forall|j: int|
            0 <= j < models.len() ==> {
                let linked = #[trigger] spec_link_models(models, ms)->Some_0[j];
                &&& linked.name == models[j].name
                &&& linked.mesh == models[j].mesh
                &&& linked.material_name == models[j].material_name
                &&& match models[j].material_name {
                    None => linked.material_id is None,
                    Some(nm) => linked.material_id matches Some(mi) && 0 <= mi < ms.len()
                        && ms[mi].name == nm,
                }
            },
    decreases models.len(),
{
    if models.len() > 0 {
        lemma_link_models_pointwise(models.drop_first(), ms);
        match models[0].material_name {
            None => {},
            Some(nm) => {
                lemma_find_material_sound(ms, nm);
            },
        }
        assert forall|j: int| 0 <= j < models.len() implies {
            let linked = #[trigger] spec_link_models(models, ms)->Some_0[j];
            &&& linked.name == models[j].name
            &&& linked.mesh == models[j].mesh
            &&& linked.material_name == models[j].material_name
            &&& match models[j].material_name {
                None => linked.material_id is None,
                Some(nm) => linked.material_id matches Some(mi) && 0 <= mi < ms.len()
                    && ms[mi].name == nm,
            }
        } by {
            if j > 0 {
                assert(spec_link_models(models, ms)->Some_0[j] == spec_link_models(
                    models.drop_first(),
                    ms,
                )->Some_0[j - 1]);
                assert(models.drop_first()[j - 1] == models[j]);
            }
        }
    }
}

/// Law: every material of every successfully decoded library is in the
/// collected list — the list contains every material a referenced library
/// defines.
pub proof fn lemma_collected_materials_complete(outs: Seq<FetchOutcome>, i: int)
    requires
        0 <= i < outs.len(),
        spec_collect_materials(outs) is Ok,
    ensures
        forall|k: int|
            0 <= k < spec_outcome_materials(outs[i]).len()
                ==> spec_collect_materials(outs)->Ok_0.contains(
                #[trigger] spec_outcome_materials(outs[i])[k],
            ),
    decreases i,
{
    let whole = spec_collect_materials(outs)->Ok_0;
    let ms0 = spec_outcome_materials(outs[0]);
    let more = spec_collect_materials(outs.drop_first())->Ok_0;
    assert(whole == ms0 + more);
    if i == 0 {
        assert forall|k: int| 0 <= k < spec_outcome_materials(outs[i]).len() implies whole.contains(
            #[trigger] spec_outcome_materials(outs[i])[k],
        ) by {
            assert(whole[k] == spec_outcome_materials(outs[i])[k]);
        }
    } else {
        lemma_collected_materials_complete(outs.drop_first(), i - 1);
        assert(outs.drop_first()[i - 1] == outs[i]);
        assert forall|k: int| 0 <= k < spec_outcome_materials(outs[i]).len() implies whole.contains(
            #[trigger] spec_outcome_materials(outs[i])[k],
        ) by {
            let x = spec_outcome_materials(outs[i])[k];
            assert(more.contains(x));
            let w = choose|w: int| 0 <= w < more.len() && more[w] == x;
            assert(whole[ms0.len() + w] == x);
        }
    }
}

} // verus!
