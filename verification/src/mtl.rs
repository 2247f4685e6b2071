//! Decoding a material library: the text format that defines the named
//! materials a model description refers to.
//!
//! The format is line-based. A `newmtl` directive opens a new material with
//! the given name; every other directive line is a shading parameter of the
//! material opened last. Blank lines and comment lines say nothing. A
//! parameter before the first `newmtl` is an error, as is a `newmtl`
//! directive without exactly one name.

use vstd::prelude::*;
use vstd::string::StringSliceAdditionalSpecFns;

use crate::error::FetchError;
use crate::model::{Material, MaterialParam, MaterialParamView, MaterialView};
use crate::text::{
    spec_fields, spec_lines, split, split_fields, bytes_eq, lemma_skip_step, HASH_SIGN, LINE_FEED,
};

verus! {

/// The bytes of the directive that opens a material.
pub open spec fn kw_newmtl() -> Seq<u8> {
    "newmtl".spec_bytes()
}

/// The decoder's state after some prefix of the lines: the materials
/// already closed, and the one still open, if any.
pub struct MtlState {
    pub materials: Seq<MaterialView>,
    pub cur: Option<MaterialView>,
}

/// The state before any line has been read.
pub open spec fn spec_mtl_init() -> MtlState {
    MtlState { materials: Seq::empty(), cur: None }
}

/// Closes the open material, if any, by appending it to the closed ones.
pub open spec fn spec_close_material(st: MtlState) -> MtlState {
    match st.cur {
        Some(m) => MtlState { materials: st.materials.push(m), cur: None },
        None => st,
    }
}

/// What one line does to the decoder's state, or `None` when the line is
/// invalid.
pub open spec fn spec_apply_mtl_line(st: MtlState, line: Seq<u8>) -> Option<MtlState> {
    let fields = spec_fields(line);
    if fields.len() == 0 {
        Some(st)
    } else if fields[0][0] == HASH_SIGN {
        Some(st)
    } else if fields[0] == kw_newmtl() {
        if fields.len() != 2 {
            None
        } else {
            let closed = spec_close_material(st);
            Some(
                MtlState {
                    materials: closed.materials,
                    cur: Some(MaterialView { name: fields[1], params: Seq::empty() }),
                },
            )
        }
    } else {
        match st.cur {
            None => None,
            Some(m) => Some(
                MtlState {
                    materials: st.materials,
                    cur: Some(
                        MaterialView {
                            name: m.name,
                            params: m.params.push(
                                MaterialParamView { key: fields[0], values: fields.drop_first() },
                            ),
                        },
                    ),
                },
            ),
        }
    }
}

/// Applies the lines one after another, stopping at the first invalid one.
pub open spec fn spec_mtl_fold(lines: Seq<Seq<u8>>, st: MtlState) -> Option<MtlState>
    decreases lines.len(),
{
    if lines.len() == 0 {
        Some(st)
    } else {
        match spec_apply_mtl_line(st, lines[0]) {
            None => None,
            Some(st2) => spec_mtl_fold(lines.drop_first(), st2),
        }
    }
}

/// The materials a material-library text defines, in order, or `None` when
/// the text is invalid.
pub open spec fn spec_parse_mtl(s: Seq<u8>) -> Option<Seq<MaterialView>> {
    match spec_mtl_fold(spec_lines(s), spec_mtl_init()) {
        None => None,
        Some(st) => Some(spec_close_material(st).materials),
    }
}

struct MtlBuilder {
    materials: Vec<Material>,
    cur: Option<Material>,
}

impl View for MtlBuilder {
    type V = MtlState;

    closed spec fn view(&self) -> MtlState {
        MtlState {
            materials: self.materials.deep_view(),
            cur: match self.cur {
                Some(ref m) => Some(m@),
                None => None,
            },
        }
    }
}

impl MtlBuilder {
    fn close(&mut self)
        ensures
            final(self)@ == spec_close_material(old(self)@),
    {
        let ghost pre = self@;
        match self.cur.take() {
            Some(m) => {
                self.materials.push(m);
                assert(self@.materials =~= spec_close_material(pre).materials);
            },
            None => {},
        }
    }

    fn apply_line(&mut self, line: &Vec<u8>) -> (ok: bool)
        ensures
            ok ==> spec_apply_mtl_line(old(self)@, line@) == Some(final(self)@),
            !ok ==> spec_apply_mtl_line(old(self)@, line@) is None,
    {
        let ghost pre = self@;
        let mut fields = split_fields(line.as_slice());
        let ghost sf = spec_fields(line@);
        proof {
            assert(sf.len() == fields@.len());
            assert(forall|j: int| 0 <= j < sf.len() ==> sf[j] == #[trigger] fields@[j]@);
        }
        if fields.len() == 0 {
            return true;
        }
        if fields[0].len() > 0 && fields[0][0] == HASH_SIGN {
            assert(sf[0][0] == HASH_SIGN);
            return true;
        }
        proof {
            crate::text::lemma_fields_nonempty(line@);
            assert(sf[0].len() > 0);
            assert(sf[0][0] != HASH_SIGN);
        }
        if bytes_eq(fields[0].as_slice(), "newmtl".as_bytes()) {
            assert(sf[0] == kw_newmtl());
            if fields.len() != 2 {
                assert(spec_apply_mtl_line(pre, line@) is None);
                return false;
            }
            self.close();
            let name = fields.remove(1);
            self.cur = Some(Material { name, params: Vec::new() });
            proof {
                let st2 = spec_apply_mtl_line(pre, line@).unwrap();
                assert(self@.cur.unwrap().params =~= st2.cur.unwrap().params);
                assert(self@.cur.unwrap() == st2.cur.unwrap());
                assert(self@ == st2);
            }
            true
        } else {
            assert(sf[0] != kw_newmtl());
            match self.cur.take() {
                None => {
                    assert(spec_apply_mtl_line(pre, line@) is None);
                    false
                },
                Some(mut m) => {
                    let key = fields.remove(0);
                    proof {
                        assert(fields.deep_view() =~= sf.drop_first());
                    }
                    m.params.push(MaterialParam { key, values: fields });
                    self.cur = Some(m);
                    proof {
                        let st2 = spec_apply_mtl_line(pre, line@).unwrap();
                        assert(self@.cur.unwrap().params =~= st2.cur.unwrap().params);
                        assert(self@.cur.unwrap() == st2.cur.unwrap());
                        assert(self@ == st2);
                    }
                    true
                },
            }
        }
    }
}

/// Decodes a material-library text, exactly as `spec_parse_mtl` describes:
/// the decoded materials in order, or a parse error for an invalid text.
pub fn parse_mtl(text: &[u8]) -> (r: Result<Vec<Material>, FetchError>)
    ensures
        r matches Ok(ms) ==> spec_parse_mtl(text@) == Some(ms.deep_view()),
        r is Err <==> spec_parse_mtl(text@) is None,
        r matches Err(e) ==> e == FetchError::ParseError,
{
    let lines = split(text, LINE_FEED);
    let ghost all = lines.deep_view();
    let mut b = MtlBuilder { materials: Vec::new(), cur: None };
    proof {
        assert(b@.materials =~= spec_mtl_init().materials);
        assert(b@ == spec_mtl_init());
        assert(all.skip(0) =~= all);
    }
    let n = lines.len();
    for i in 0..n
        invariant
            n == all.len() == lines@.len(),
            all == lines.deep_view(),
            all == spec_lines(text@),
            spec_mtl_fold(all.skip(i as int), b@) == spec_mtl_fold(all, spec_mtl_init()),
    {
        proof {
            lemma_skip_step(all, i as int);
            assert(all[i as int] == lines@[i as int]@);
        }
        let ghost pre_b = b@;
        let ok = b.apply_line(&lines[i]);
        if !ok {
            proof {
                assert(spec_apply_mtl_line(pre_b, all[i as int]) is None);
                assert(spec_mtl_fold(all.skip(i as int), pre_b) is None);
            }
            return Err(FetchError::ParseError);
        }
        proof {
            assert(spec_apply_mtl_line(pre_b, all[i as int]) == Some(b@));
            assert(spec_mtl_fold(all.skip(i as int), pre_b) == spec_mtl_fold(
                all.skip(i as int).drop_first(),
                b@,
            ));
            assert(spec_mtl_fold(all.skip(i + 1), b@) == spec_mtl_fold(all, spec_mtl_init()));
        }
    }
    assert(all.skip(n as int) =~= Seq::<Seq<u8>>::empty());
    b.close();
    let ms = b.materials;
    assert(spec_parse_mtl(text@) == Some(ms.deep_view()));
    Ok(ms)
}

} // verus!
