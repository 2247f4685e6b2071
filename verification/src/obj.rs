//! Decoding a model description: the line-based text format that carries
//! triangulated, single-indexed geometry.
//!
//! Vertex data directives (`v`, `vt`, `vn`) collect position, texture-
//! coordinate and normal tokens; `o` and `g` directives close the group
//! being built and open a named one; `f` directives add faces whose corners
//! name the collected vertex data by one-based index, triangulated as a
//! fan; `usemtl` records the material the current group uses and `mtllib`
//! records a referenced material library. Unknown directives and comments
//! say nothing. Every face corner of a group must carry the same shape of
//! data (with or without texture coordinate and normal), so the group's
//! attribute arrays stay parallel: each corner appends one whole vertex and
//! the face indices name those vertices.

use vstd::prelude::*;
use vstd::slice::slice_to_vec;
use vstd::string::StringSliceAdditionalSpecFns;

use crate::error::FetchError;
use crate::model::{Mesh, MeshView, Model, ModelView, ObjDocument, ObjDocumentView};
use crate::text::{
    all_digits, bytes_eq, is_number_token, check_number, lemma_skip_step, parse_digits,
    spec_fields, spec_lines, spec_nat_of_digits, spec_split, split, split_fields, HASH_SIGN,
    LINE_FEED, SLASH,
};

verus! {

pub open spec fn kw_v() -> Seq<u8> {
    "v".spec_bytes()
}

pub open spec fn kw_vt() -> Seq<u8> {
    "vt".spec_bytes()
}

pub open spec fn kw_vn() -> Seq<u8> {
    "vn".spec_bytes()
}

pub open spec fn kw_f() -> Seq<u8> {
    "f".spec_bytes()
}

pub open spec fn kw_o() -> Seq<u8> {
    "o".spec_bytes()
}

pub open spec fn kw_g() -> Seq<u8> {
    "g".spec_bytes()
}

pub open spec fn kw_usemtl() -> Seq<u8> {
    "usemtl".spec_bytes()
}

pub open spec fn kw_mtllib() -> Seq<u8> {
    "mtllib".spec_bytes()
}

/// One face corner, decoded: which position, texture coordinate and normal
/// it names, as zero-based indices into the data collected so far.
pub struct CornerView {
    pub pos: int,
    pub tex: Option<int>,
    pub norm: Option<int>,
}

/// Which attributes a corner carries: texture coordinate, normal.
pub open spec fn spec_shape(c: CornerView) -> (bool, bool) {
    (c.tex is Some, c.norm is Some)
}

/// A one-based index written by `t` into data with `count` entries, as a
/// zero-based index; `None` when `t` is not such an index.
pub open spec fn spec_index_part(t: Seq<u8>, count: int) -> Option<int> {
    if t.len() > 0 && all_digits(t) && 1 <= spec_nat_of_digits(t) && spec_nat_of_digits(t)
        <= count {
        Some(spec_nat_of_digits(t) - 1)
    } else {
        None
    }
}

/// A face corner `p`, `p/t`, `p/t/n` or `p//n`, decoded against the counts
/// of collected positions, texture coordinates and normals; `None` when the
/// corner is malformed or names data that does not exist.
pub open spec fn spec_corner(t: Seq<u8>, npos: int, ntex: int, nnorm: int) -> Option<CornerView> {
    let parts = spec_split(t, SLASH);
    if parts.len() == 1 {
        match spec_index_part(parts[0], npos) {
            Some(p) => Some(CornerView { pos: p, tex: None, norm: None }),
            None => None,
        }
    } else if parts.len() == 2 {
        match (spec_index_part(parts[0], npos), spec_index_part(parts[1], ntex)) {
            (Some(p), Some(t2)) => Some(CornerView { pos: p, tex: Some(t2), norm: None }),
            _ => None,
        }
    } else if parts.len() == 3 {
        match (spec_index_part(parts[0], npos), spec_index_part(parts[2], nnorm)) {
            (Some(p), Some(nm)) => if parts[1].len() == 0 {
                Some(CornerView { pos: p, tex: None, norm: Some(nm) })
            } else {
                match spec_index_part(parts[1], ntex) {
                    Some(t2) => Some(CornerView { pos: p, tex: Some(t2), norm: Some(nm) }),
                    None => None,
                }
            },
            _ => None,
        }
    } else {
        None
    }
}

/// The decoder's state after some prefix of the lines.
pub struct ObjState {
    /// Position tokens collected by `v` lines, three per vertex.
    pub positions: Seq<Seq<u8>>,
    /// Normal tokens collected by `vn` lines, three per normal.
    pub normals: Seq<Seq<u8>>,
    /// Texture-coordinate tokens collected by `vt` lines, two per entry.
    pub texcoords: Seq<Seq<u8>>,
    /// The groups already closed.
    pub models: Seq<ModelView>,
    /// The mesh of the group being built.
    pub cur: MeshView,
    /// The name of the group being built.
    pub cur_name: Seq<u8>,
    /// The corner shape the group's faces carry, fixed by its first corner.
    pub cur_shape: Option<(bool, bool)>,
    /// The material named by the last `usemtl` directive, if any.
    pub cur_material: Option<Seq<u8>>,
    /// The material libraries referenced so far.
    pub mtl_libraries: Seq<Seq<u8>>,
}

/// The state before any line has been read.
pub open spec fn spec_obj_init() -> ObjState {
    ObjState {
        positions: Seq::empty(),
        normals: Seq::empty(),
        texcoords: Seq::empty(),
        models: Seq::empty(),
        cur: MeshView::empty(),
        cur_name: Seq::empty(),
        cur_shape: None,
        cur_material: None,
        mtl_libraries: Seq::empty(),
    }
}

/// Closes the group being built: it joins the finished models when it has
/// any face, and a fresh group under `name` is opened. The collected vertex
/// data and the material in effect carry over.
pub open spec fn spec_close_model(st: ObjState, name: Seq<u8>) -> ObjState {
    let models = if st.cur.indices.len() > 0 {
        st.models.push(
            ModelView {
                name: st.cur_name,
                material_name: st.cur_material,
                material_id: None,
                mesh: st.cur,
            },
        )
    } else {
        st.models
    };
    ObjState {
        positions: st.positions,
        normals: st.normals,
        texcoords: st.texcoords,
        models,
        cur: MeshView::empty(),
        cur_name: name,
        cur_shape: None,
        cur_material: st.cur_material,
        mtl_libraries: st.mtl_libraries,
    }
}

/// Appends the vertex a corner names to a mesh: its three position tokens,
/// and its texture-coordinate and normal tokens when the corner carries
/// them.
pub open spec fn spec_push_corner(
    pos: Seq<Seq<u8>>,
    tex: Seq<Seq<u8>>,
    norm: Seq<Seq<u8>>,
    mesh: MeshView,
    c: CornerView,
) -> MeshView {
    MeshView {
        positions: mesh.positions + seq![
            pos[3 * c.pos],
            pos[3 * c.pos + 1],
            pos[3 * c.pos + 2],
        ],
        texcoords: match c.tex {
            Some(t) => mesh.texcoords + seq![tex[2 * t], tex[2 * t + 1]],
            None => mesh.texcoords,
        },
        normals: match c.norm {
            Some(nm) => mesh.normals + seq![norm[3 * nm], norm[3 * nm + 1], norm[3 * nm + 2]],
            None => mesh.normals,
        },
        indices: mesh.indices,
    }
}

/// Appends the vertices of the corners in order.
pub open spec fn spec_append_corners(
    pos: Seq<Seq<u8>>,
    tex: Seq<Seq<u8>>,
    norm: Seq<Seq<u8>>,
    mesh: MeshView,
    cs: Seq<CornerView>,
) -> MeshView
    decreases cs.len(),
{
    if cs.len() == 0 {
        mesh
    } else {
        spec_append_corners(pos, tex, norm, spec_push_corner(pos, tex, norm, mesh, cs[0]), cs.drop_first())
    }
}

/// The indices of a face with `k` corners, triangulated as a fan around the
/// first corner; the corners' vertices start at index `base`.
pub open spec fn spec_fan(base: int, k: nat) -> Seq<int>
    decreases k,
{
    if k <= 2 {
        Seq::empty()
    } else {
        spec_fan(base, (k - 1) as nat) + seq![base, base + k - 2, base + k - 1]
    }
}

/// True when every corner token decodes and carries exactly `shape`.
pub open spec fn spec_corners_ok(
    toks: Seq<Seq<u8>>,
    npos: int,
    ntex: int,
    nnorm: int,
    shape: (bool, bool),
) -> bool {
    forall|j: int|
        0 <= j < toks.len() ==> match #[trigger] spec_corner(toks[j], npos, ntex, nnorm) {
            Some(c) => spec_shape(c) == shape,
            None => false,
        }
}

/// The decoded corners, meaningful where `spec_corners_ok` holds.
pub open spec fn spec_corner_seq(toks: Seq<Seq<u8>>, npos: int, ntex: int, nnorm: int) -> Seq<
    CornerView,
> {
    Seq::new(
        toks.len(),
        |j: int|
            match spec_corner(toks[j], npos, ntex, nnorm) {
                Some(c) => c,
                None => CornerView { pos: 0, tex: None, norm: None },
            },
    )
}

/// What a face line does to the state: its corners (the fields after the
/// directive) are decoded and must share one shape, which must also be the
/// shape of the group's earlier faces; their vertices are appended to the
/// group's mesh and the fan triangles over them to its indices. `None` when
/// the face has fewer than three corners, a corner is invalid, or the
/// shapes disagree.
pub open spec fn spec_apply_face(st: ObjState, fields: Seq<Seq<u8>>) -> Option<ObjState> {
    let toks = fields.drop_first();
    let npos = st.positions.len() as int / 3;
    let ntex = st.texcoords.len() as int / 2;
    let nnorm = st.normals.len() as int / 3;
    if toks.len() < 3 {
        None
    } else {
        match spec_corner(toks[0], npos, ntex, nnorm) {
            None => None,
            Some(c0) => {
                let shape = spec_shape(c0);
                if match st.cur_shape {
                    Some(s) => s != shape,
                    None => false,
                } {
                    None
                } else if !spec_corners_ok(toks, npos, ntex, nnorm, shape) {
                    None
                } else {
                    let cs = spec_corner_seq(toks, npos, ntex, nnorm);
                    let base = st.cur.positions.len() as int / 3;
                    let mesh = spec_append_corners(st.positions, st.texcoords, st.normals, st.cur, cs);
                    Some(
                        ObjState {
                            positions: st.positions,
                            normals: st.normals,
                            texcoords: st.texcoords,
                            models: st.models,
                            cur: MeshView {
                                positions: mesh.positions,
                                normals: mesh.normals,
                                texcoords: mesh.texcoords,
                                indices: mesh.indices + spec_fan(base, toks.len()),
                            },
                            cur_name: st.cur_name,
                            cur_shape: Some(shape),
                            cur_material: st.cur_material,
                            mtl_libraries: st.mtl_libraries,
                        },
                    )
                }
            },
        }
    }
}

/// What one line does to the decoder's state, or `None` when the line is
/// invalid.
pub open spec fn spec_apply_obj_line(st: ObjState, line: Seq<u8>) -> Option<ObjState> {
    let fields = spec_fields(line);
    if fields.len() == 0 {
        Some(st)
    } else if fields[0][0] == HASH_SIGN {
        Some(st)
    } else if fields[0] == kw_v() {
        if fields.len() == 4 && is_number_token(fields[1]) && is_number_token(fields[2])
            && is_number_token(fields[3]) {
            Some(
                ObjState {
                    positions: st.positions + seq![fields[1], fields[2], fields[3]],
                    ..st
                },
            )
        } else {
            None
        }
    } else if fields[0] == kw_vt() {
        if fields.len() == 3 && is_number_token(fields[1]) && is_number_token(fields[2]) {
            Some(ObjState { texcoords: st.texcoords + seq![fields[1], fields[2]], ..st })
        } else {
            None
        }
    } else if fields[0] == kw_vn() {
        if fields.len() == 4 && is_number_token(fields[1]) && is_number_token(fields[2])
            && is_number_token(fields[3]) {
            Some(ObjState { normals: st.normals + seq![fields[1], fields[2], fields[3]], ..st })
        } else {
            None
        }
    } else if fields[0] == kw_f() {
        spec_apply_face(st, fields)
    } else if fields[0] == kw_o() || fields[0] == kw_g() {
        if fields.len() == 2 {
            Some(spec_close_model(st, fields[1]))
        } else {
            None
        }
    } else if fields[0] == kw_usemtl() {
        if fields.len() == 2 {
            Some(ObjState { cur_material: Some(fields[1]), ..st })
        } else {
            None
        }
    } else if fields[0] == kw_mtllib() {
        if fields.len() >= 2 {
            Some(ObjState { mtl_libraries: st.mtl_libraries + fields.drop_first(), ..st })
        } else {
            None
        }
    } else {
        Some(st)
    }
}

/// Applies the lines one after another, stopping at the first invalid one.
pub open spec fn spec_obj_fold(lines: Seq<Seq<u8>>, st: ObjState) -> Option<ObjState>
    decreases lines.len(),
{
    if lines.len() == 0 {
        Some(st)
    } else {
        match spec_apply_obj_line(st, lines[0]) {
            None => None,
            Some(st2) => spec_obj_fold(lines.drop_first(), st2),
        }
    }
}

/// The decoded document: the last group is closed, and the models stand
/// beside the referenced material libraries.
pub open spec fn spec_obj_finalize(st: ObjState) -> ObjDocumentView {
    let closed = spec_close_model(st, Seq::empty());
    ObjDocumentView { models: closed.models, mtl_libraries: st.mtl_libraries }
}

/// The decoded model description, or `None` when the text is invalid.
pub open spec fn spec_parse_obj(s: Seq<u8>) -> Option<ObjDocumentView> {
    match spec_obj_fold(spec_lines(s), spec_obj_init()) {
        None => None,
        Some(st) => Some(spec_obj_finalize(st)),
    }
}

/// Every state the decoder can reach is well formed: the group being built
/// holds whole vertices whose attribute arrays follow its corner shape, its
/// indices name its own vertices in whole triangles, and every finished
/// model has a well-formed mesh.
pub open spec fn wf_state(st: ObjState) -> bool {
    &&& st.cur.positions.len() % 3 == 0
    &&& match st.cur_shape {
        None => st.cur == MeshView::empty(),
        Some(shape) => st.cur.texcoords.len() == (if shape.0 {
            2 * st.cur.vertex_count()
        } else {
            0
        }) && st.cur.normals.len() == (if shape.1 {
            3 * st.cur.vertex_count()
        } else {
            0
        }),
    }
    &&& st.cur.indices.len() % 3 == 0
    &&& forall|i: int|
        0 <= i < st.cur.indices.len() ==> 0 <= #[trigger] st.cur.indices[i]
            < st.cur.vertex_count()
    &&& forall|j: int| 0 <= j < st.models.len() ==> (#[trigger] st.models[j]).mesh.wf()
}

proof fn lemma_fan_props(base: int, k: nat)
    requires
        base >= 0,
    ensures
        spec_fan(base, k).len() == if k <= 2 {
            0int
        } else {
            3 * (k - 2)
        },
        forall|i: int|
            0 <= i < spec_fan(base, k).len() ==> base <= #[trigger] spec_fan(base, k)[i] < base
                + k,
    decreases k,
{
    if k > 2 {
        lemma_fan_props(base, (k - 1) as nat);
    }
}

proof fn lemma_append_corners_props(
    pos: Seq<Seq<u8>>,
    tex: Seq<Seq<u8>>,
    norm: Seq<Seq<u8>>,
    mesh: MeshView,
    cs: Seq<CornerView>,
    shape: (bool, bool),
)
    requires
        forall|j: int| 0 <= j < cs.len() ==> spec_shape(#[trigger] cs[j]) == shape,
    ensures
        spec_append_corners(pos, tex, norm, mesh, cs).positions.len() == mesh.positions.len() + 3
            * cs.len(),
        spec_append_corners(pos, tex, norm, mesh, cs).texcoords.len() == mesh.texcoords.len() + (
        if shape.0 {
            2 * cs.len() as int
        } else {
            0int
        }),
        spec_append_corners(pos, tex, norm, mesh, cs).normals.len() == mesh.normals.len() + (
        if shape.1 {
            3 * cs.len() as int
        } else {
            0int
        }),
        spec_append_corners(pos, tex, norm, mesh, cs).indices == mesh.indices,
    decreases cs.len(),
{
    if cs.len() > 0 {
        let stepped = spec_push_corner(pos, tex, norm, mesh, cs[0]);
        lemma_append_corners_props(pos, tex, norm, stepped, cs.drop_first(), shape);
    }
}

proof fn lemma_apply_face_wf(st: ObjState, fields: Seq<Seq<u8>>)
    requires
        wf_state(st),
        spec_apply_face(st, fields) is Some,
    ensures
        wf_state(spec_apply_face(st, fields)->Some_0),
{
    let toks = fields.drop_first();
    let npos = st.positions.len() as int / 3;
    let ntex = st.texcoords.len() as int / 2;
    let nnorm = st.normals.len() as int / 3;
    let c0 = spec_corner(toks[0], npos, ntex, nnorm)->Some_0;
    let shape = spec_shape(c0);
    let cs = spec_corner_seq(toks, npos, ntex, nnorm);
    let base = st.cur.positions.len() as int / 3;
    assert(forall|j: int| 0 <= j < cs.len() ==> spec_shape(#[trigger] cs[j]) == shape);
    lemma_append_corners_props(st.positions, st.texcoords, st.normals, st.cur, cs, shape);
    lemma_fan_props(base, toks.len());
    let st2 = spec_apply_face(st, fields)->Some_0;
    assert(st.cur.positions.len() == 3 * base);
    assert(st2.cur.vertex_count() == base + cs.len());
    assert(forall|i: int|
        0 <= i < st2.cur.indices.len() && i < st.cur.indices.len() ==> #[trigger] st2.cur.indices[i]
            == st.cur.indices[i]);
    assert(forall|i: int|
        st.cur.indices.len() <= i < st2.cur.indices.len() ==> #[trigger] st2.cur.indices[i]
            == spec_fan(base, toks.len())[i - st.cur.indices.len()]);
}

proof fn lemma_apply_line_wf(st: ObjState, line: Seq<u8>)
    requires
        wf_state(st),
        spec_apply_obj_line(st, line) is Some,
    ensures
        wf_state(spec_apply_obj_line(st, line)->Some_0),
{
    let fields = spec_fields(line);
    let st2 = spec_apply_obj_line(st, line)->Some_0;
    if fields.len() == 0 {
    } else if fields[0][0] == HASH_SIGN {
    } else if fields[0] == kw_v() || fields[0] == kw_vt() || fields[0] == kw_vn() {
    } else if fields[0] == kw_f() {
        lemma_apply_face_wf(st, fields);
    } else if fields[0] == kw_o() || fields[0] == kw_g() {
        let closed = spec_close_model(st, fields[1]);
        assert(st.cur.wf());
        assert(forall|j: int|
            0 <= j < closed.models.len() ==> (#[trigger] closed.models[j]).mesh.wf());
    } else {
    }
}

proof fn lemma_fold_wf(lines: Seq<Seq<u8>>, st: ObjState)
    requires
        wf_state(st),
        spec_obj_fold(lines, st) is Some,
    ensures
        wf_state(spec_obj_fold(lines, st)->Some_0),
    decreases lines.len(),
{
    if lines.len() > 0 {
        lemma_apply_line_wf(st, lines[0]);
        lemma_fold_wf(lines.drop_first(), spec_apply_obj_line(st, lines[0])->Some_0);
    }
}

/// Law: every model a successful parse returns has a well-formed mesh —
/// whole vertices, attribute arrays parallel to the positions when present,
/// and whole triangles of indices, each naming one of the mesh's own
/// vertices.
pub proof fn lemma_parsed_models_wf(s: Seq<u8>)
    requires
        spec_parse_obj(s) is Some,
    ensures
        forall|j: int|
            0 <= j < spec_parse_obj(s)->Some_0.models.len() ==> (#[trigger] spec_parse_obj(
                s,
            )->Some_0.models[j]).mesh.wf(),
{
    let st = spec_obj_fold(spec_lines(s), spec_obj_init())->Some_0;
    lemma_fold_wf(spec_lines(s), spec_obj_init());
    assert(st.cur.wf());
}

struct Corner {
    pos: usize,
    tex: Option<usize>,
    norm: Option<usize>,
}

impl View for Corner {
    type V = CornerView;

    closed spec fn view(&self) -> CornerView {
        CornerView {
            pos: self.pos as int,
            tex: match self.tex {
                Some(t) => Some(t as int),
                None => None,
            },
            norm: match self.norm {
                Some(n) => Some(n as int),
                None => None,
            },
        }
    }
}

proof fn lemma_div3_bound(a: int)
    requires
        a >= 0,
    ensures
        3 * (a / 3) <= a,
        a / 3 >= 0,
{
    vstd::arithmetic::div_mod::lemma_fundamental_div_mod(a, 3);
    vstd::arithmetic::div_mod::lemma_mod_bound(a, 3);
}

proof fn lemma_div2_bound(a: int)
    requires
        a >= 0,
    ensures
        2 * (a / 2) <= a,
        a / 2 >= 0,
{
    vstd::arithmetic::div_mod::lemma_fundamental_div_mod(a, 2);
    vstd::arithmetic::div_mod::lemma_mod_bound(a, 2);
}

fn index_part(p: &Vec<u8>, count: usize) -> (r: Option<usize>)
    ensures
        r is Some <==> spec_index_part(p@, count as int) is Some,
        r matches Some(v) ==> spec_index_part(p@, count as int) == Some(v as int),
{
    match parse_digits(p.as_slice()) {
        None => None,
        Some(v) => if 1 <= v && v <= count {
            Some(v - 1)
        } else {
            None
        },
    }
}

fn parse_corner(t: &Vec<u8>, npos: usize, ntex: usize, nnorm: usize) -> (r: Option<Corner>)
    ensures
        r is Some <==> spec_corner(t@, npos as int, ntex as int, nnorm as int) is Some,
        r matches Some(c) ==> spec_corner(t@, npos as int, ntex as int, nnorm as int) == Some(c@),
{
    let parts = split(t.as_slice(), SLASH);
    let ghost sp = spec_split(t@, SLASH);
    proof {
        assert(sp.len() == parts@.len());
        assert(forall|j: int| 0 <= j < sp.len() ==> sp[j] == #[trigger] parts@[j]@);
    }
    if parts.len() == 1 {
        match index_part(&parts[0], npos) {
            Some(p) => Some(Corner { pos: p, tex: None, norm: None }),
            None => None,
        }
    } else if parts.len() == 2 {
        match index_part(&parts[0], npos) {
            None => None,
            Some(p) => match index_part(&parts[1], ntex) {
                None => None,
                Some(t2) => Some(Corner { pos: p, tex: Some(t2), norm: None }),
            },
        }
    } else if parts.len() == 3 {
        match index_part(&parts[0], npos) {
            None => None,
            Some(p) => match index_part(&parts[2], nnorm) {
                None => None,
                Some(nm) => if parts[1].len() == 0 {
                    Some(Corner { pos: p, tex: None, norm: Some(nm) })
                } else {
                    match index_part(&parts[1], ntex) {
                        None => None,
                        Some(t2) => Some(Corner { pos: p, tex: Some(t2), norm: Some(nm) }),
                    }
                },
            },
        }
    } else {
        None
    }
}

struct ObjBuilder {
    positions: Vec<Vec<u8>>,
    normals: Vec<Vec<u8>>,
    texcoords: Vec<Vec<u8>>,
    models: Vec<Model>,
    cur: Mesh,
    cur_name: Vec<u8>,
    cur_shape: Option<(bool, bool)>,
    cur_material: Option<Vec<u8>>,
    mtl_libraries: Vec<Vec<u8>>,
}

impl View for ObjBuilder {
    type V = ObjState;

    closed spec fn view(&self) -> ObjState {
        ObjState {
            positions: self.positions.deep_view(),
            normals: self.normals.deep_view(),
            texcoords: self.texcoords.deep_view(),
            models: self.models.deep_view(),
            cur: self.cur@,
            cur_name: self.cur_name@,
            cur_shape: self.cur_shape,
            cur_material: match self.cur_material {
                Some(ref m) => Some(m@),
                None => None,
            },
            mtl_libraries: self.mtl_libraries.deep_view(),
        }
    }
}

impl ObjBuilder {
    fn close_model(&mut self, new_name: Vec<u8>)
        ensures
            final(self)@ == spec_close_model(old(self)@, new_name@),
    {
        let ghost pre = self@;
        let mut name = new_name;
        core::mem::swap(&mut self.cur_name, &mut name);
        let material_name: Option<Vec<u8>> = match self.cur_material {
            Some(ref m) => Some(slice_to_vec(m.as_slice())),
            None => None,
        };
        let mut finished = Mesh::new();
        core::mem::swap(&mut self.cur, &mut finished);
        if finished.indices.len() > 0 {
            self.models.push(Model { name, material_name, material_id: None, mesh: finished });
            proof {
                assert(self@.models =~= spec_close_model(pre, new_name@).models);
            }
        }
        self.cur_shape = None;
        assert(self@ == spec_close_model(pre, new_name@));
    }

    fn apply_face(&mut self, fields: &Vec<Vec<u8>>) -> (ok: bool)
        requires
            fields@.len() >= 1,
        ensures
            ok ==> spec_apply_face(old(self)@, fields.deep_view()) == Some(final(self)@),
            !ok ==> spec_apply_face(old(self)@, fields.deep_view()) is None,
    {
        let ghost st0 = self@;
        let ghost ftoks = fields.deep_view().drop_first();
        proof {
            assert(forall|j: int|
                1 <= j < fields@.len() ==> ftoks[j - 1] == #[trigger] fields@[j]@);
        }
        let nf = fields.len();
        if nf < 4 {
            return false;
        }
        let np = self.positions.len() / 3;
        let nt = self.texcoords.len() / 2;
        let nn = self.normals.len() / 3;
        let ghost npi = st0.positions.len() as int / 3;
        let ghost nti = st0.texcoords.len() as int / 2;
        let ghost nni = st0.normals.len() as int / 3;
        assert(np as int == npi && nt as int == nti && nn as int == nni);
        let c0 = match parse_corner(&fields[1], np, nt, nn) {
            None => {
                assert(spec_corner(ftoks[0], npi, nti, nni) is None);
                return false;
            },
            Some(c) => c,
        };
        let shape_t = c0.tex.is_some();
        let shape_n = c0.norm.is_some();
        let ghost shape = spec_shape(c0@);
        assert(shape == (shape_t, shape_n));
        match self.cur_shape {
            Some(s) => {
                if s.0 != shape_t || s.1 != shape_n {
                    assert(st0.cur_shape == Some(s));
                    return false;
                }
            },
            None => {},
        }
        let mut corners: Vec<Corner> = Vec::new();
        let ghost c0v = c0@;
        for j in 1..nf
            invariant
                nf == fields@.len(),
                4 <= nf,
                ftoks == fields.deep_view().drop_first(),
                ftoks.len() == nf - 1,
                forall|x: int| 1 <= x < nf ==> ftoks[x - 1] == #[trigger] fields@[x]@,
                self@ == st0,
                np as int == npi == st0.positions.len() as int / 3,
                nt as int == nti == st0.texcoords.len() as int / 2,
                nn as int == nni == st0.normals.len() as int / 3,
                spec_corner(ftoks[0], npi, nti, nni) == Some(c0v),
                shape == spec_shape(c0v),
                shape == (shape_t, shape_n),
                corners@.len() == j - 1,
                forall|x: int|
                    0 <= x < j - 1 ==> spec_corner(ftoks[x], npi, nti, nni) == Some(
                        #[trigger] corners@[x]@,
                    ) && spec_shape(corners@[x]@) == shape,
        {
            match parse_corner(&fields[j], np, nt, nn) {
                None => {
                    assert(spec_corner(ftoks[j - 1], npi, nti, nni) is None);
                    assert(!spec_corners_ok(ftoks, npi, nti, nni, shape));
                    return false;
                },
                Some(c) => {
                    if c.tex.is_some() != shape_t || c.norm.is_some() != shape_n {
                        assert(match spec_corner(ftoks[j - 1], npi, nti, nni) {
                            Some(cc) => spec_shape(cc) != shape,
                            None => true,
                        });
                        assert(!spec_corners_ok(ftoks, npi, nti, nni, shape));
                        return false;
                    }
                    corners.push(c);
                },
            }
        }
        proof {
            assert forall|x: int| 0 <= x < ftoks.len() implies match #[trigger] spec_corner(
                ftoks[x],
                npi,
                nti,
                nni,
            ) {
                Some(c) => spec_shape(c) == shape,
                None => false,
            } by {
                assert(spec_corner(ftoks[x], npi, nti, nni) == Some(corners@[x]@));
            }
            assert(spec_corners_ok(ftoks, npi, nti, nni, shape));
        }
        let ghost cs = spec_corner_seq(ftoks, npi, nti, nni);
        proof {
            assert(cs.len() == corners@.len());
            assert(forall|x: int| 0 <= x < cs.len() ==> cs[x] == #[trigger] corners@[x]@);
        }
        let base = self.cur.positions.len() / 3;
        let ghost base_i = st0.cur.positions.len() as int / 3;
        assert(base as int == base_i);
        let kcount = corners.len();
        let ghost mesh_mid = spec_append_corners(st0.positions, st0.texcoords, st0.normals, st0.cur, cs);
        assert(cs.skip(0) =~= cs);
        for j in 0..kcount
            invariant
                kcount == corners@.len() == cs.len(),
                ftoks.len() == cs.len(),
                forall|x: int| 0 <= x < cs.len() ==> cs[x] == #[trigger] corners@[x]@,
                self@.positions == st0.positions,
                self@.texcoords == st0.texcoords,
                self@.normals == st0.normals,
                self@.models == st0.models,
                self@.cur_name == st0.cur_name,
                self@.cur_shape == st0.cur_shape,
                self@.cur_material == st0.cur_material,
                self@.mtl_libraries == st0.mtl_libraries,
                self@.cur.indices == st0.cur.indices,
                self@.cur.positions.len() == st0.cur.positions.len() + 3 * j,
                spec_append_corners(st0.positions, st0.texcoords, st0.normals, self@.cur, cs.skip(j as int)) == mesh_mid,
                mesh_mid == spec_append_corners(st0.positions, st0.texcoords, st0.normals, st0.cur, cs),
                forall|x: int|
                    0 <= x < cs.len() ==> spec_corner(ftoks[x], st0.positions.len() as int / 3,
                        st0.texcoords.len() as int / 2, st0.normals.len() as int / 3) == Some(
                        #[trigger] cs[x],
                    ),
        {
            proof {
                lemma_skip_step(cs, j as int);
            }
            let ghost pre_cur = self@.cur;
            let c_pos = corners[j].pos;
            let c_tex = corners[j].tex;
            let c_norm = corners[j].norm;
            let plen = self.positions.len();
            let tlen = self.texcoords.len();
            let nlen = self.normals.len();
            proof {
                assert(spec_corner(ftoks[j as int], st0.positions.len() as int / 3,
                    st0.texcoords.len() as int / 2, st0.normals.len() as int / 3) == Some(
                    cs[j as int],
                ));
                assert(0 <= cs[j as int].pos < st0.positions.len() as int / 3);
                assert(cs[j as int] == corners@[j as int]@);
                assert(c_pos as int == cs[j as int].pos);
                lemma_div3_bound(st0.positions.len() as int);
                assert(3 * (c_pos as int) + 2 < st0.positions.len());
                assert(3 * (c_pos as int) + 2 < plen as int);
            }
            let p3 = 3 * c_pos;
            self.cur.positions.push(slice_to_vec(self.positions[p3].as_slice()));
            self.cur.positions.push(slice_to_vec(self.positions[p3 + 1].as_slice()));
            self.cur.positions.push(slice_to_vec(self.positions[p3 + 2].as_slice()));
            match c_tex {
                Some(ti) => {
                    proof {
                        assert(cs[j as int].tex == Some(ti as int));
                        lemma_div2_bound(st0.texcoords.len() as int);
                        assert(0 <= 2 * (ti as int) + 1 < st0.texcoords.len());
                        assert(2 * (ti as int) + 1 < tlen as int);
                    }
                    let t2 = 2 * ti;
                    self.cur.texcoords.push(slice_to_vec(self.texcoords[t2].as_slice()));
                    self.cur.texcoords.push(slice_to_vec(self.texcoords[t2 + 1].as_slice()));
                },
                None => {},
            }
            match c_norm {
                Some(ni) => {
                    proof {
                        assert(cs[j as int].norm == Some(ni as int));
                        lemma_div3_bound(st0.normals.len() as int);
                        assert(0 <= 3 * (ni as int) + 2 < st0.normals.len());
                        assert(3 * (ni as int) + 2 < nlen as int);
                    }
                    let n3 = 3 * ni;
                    self.cur.normals.push(slice_to_vec(self.normals[n3].as_slice()));
                    self.cur.normals.push(slice_to_vec(self.normals[n3 + 1].as_slice()));
                    self.cur.normals.push(slice_to_vec(self.normals[n3 + 2].as_slice()));
                },
                None => {},
            }
            proof {
                let stepped = spec_push_corner(st0.positions, st0.texcoords, st0.normals, pre_cur,
                    cs[j as int]);
                assert(self@.cur.positions =~= stepped.positions);
                assert(self@.cur.texcoords =~= stepped.texcoords);
                assert(self@.cur.normals =~= stepped.normals);
                assert(self@.cur.indices =~= stepped.indices);
                assert(self@.cur == stepped);
                assert(spec_append_corners(st0.positions, st0.texcoords, st0.normals, self@.cur,
                    cs.skip(j + 1)) == mesh_mid);
            }
        }
        assert(cs.skip(kcount as int) =~= Seq::<CornerView>::empty());
        assert(self@.cur == mesh_mid);
        let cur_len = self.cur.positions.len();
        assert(cur_len as int == st0.cur.positions.len() + 3 * kcount);
        let ghost idx0 = self@.cur.indices;
        proof {
            lemma_div3_bound(st0.cur.positions.len() as int);
            assert(spec_fan(base_i, 2nat) =~= Seq::<int>::empty());
            assert(idx0 + spec_fan(base_i, 2nat) =~= idx0);
        }
        for j in 2..kcount
            invariant
                kcount == cs.len() == ftoks.len(),
                2 <= j,
                kcount as int * 3 + st0.cur.positions.len() == cur_len as int,
                base as int == base_i,
                3 * base_i <= st0.cur.positions.len(),
                cur_len as int <= usize::MAX,
                self@.positions == st0.positions,
                self@.texcoords == st0.texcoords,
                self@.normals == st0.normals,
                self@.models == st0.models,
                self@.cur_name == st0.cur_name,
                self@.cur_shape == st0.cur_shape,
                self@.cur_material == st0.cur_material,
                self@.mtl_libraries == st0.mtl_libraries,
                self@.cur.positions == mesh_mid.positions,
                self@.cur.texcoords == mesh_mid.texcoords,
                self@.cur.normals == mesh_mid.normals,
                self@.cur.indices == idx0 + spec_fan(base_i, j as nat),
                idx0 == mesh_mid.indices,
        {
            let ghost pre_idx = self@.cur.indices;
            proof {
                assert(3 * (base_i + j + 1) <= st0.cur.positions.len() + 3 * (j as int + 1));
                assert(base as int + j + 1 <= cur_len as int);
            }
            self.cur.indices.push(base);
            self.cur.indices.push(base + j - 1);
            self.cur.indices.push(base + j);
            proof {
                assert(self@.cur.indices =~= pre_idx + seq![base_i, base_i + j - 1, base_i + j]);
                assert(spec_fan(base_i, (j + 1) as nat) =~= spec_fan(base_i, j as nat) + seq![
                    base_i,
                    base_i + j - 1,
                    base_i + j,
                ]);
                assert(self@.cur.indices =~= idx0 + spec_fan(base_i, (j + 1) as nat));
            }
        }
        self.cur_shape = Some((shape_t, shape_n));
        proof {
            let expect = spec_apply_face(st0, fields.deep_view()).unwrap();
            assert(self@.cur.indices =~= expect.cur.indices);
            assert(self@.cur == expect.cur);
            assert(self@ == expect);
        }
        true
    }

    fn apply_line(&mut self, line: &Vec<u8>) -> (ok: bool)
        ensures
            ok ==> spec_apply_obj_line(old(self)@, line@) == Some(final(self)@),
            !ok ==> spec_apply_obj_line(old(self)@, line@) is None,
    {
        let ghost pre = self@;
        let mut fields = split_fields(line.as_slice());
        let ghost sf = spec_fields(line@);
        proof {
            assert(sf.len() == fields@.len());
            assert(forall|j: int| 0 <= j < sf.len() ==> sf[j] == #[trigger] fields@[j]@);
        }
        if fields.len() == 0 {
            return true;
        }
        if fields[0].len() > 0 && fields[0][0] == HASH_SIGN {
            assert(sf[0][0] == HASH_SIGN);
            return true;
        }
        proof {
            crate::text::lemma_fields_nonempty(line@);
            assert(sf[0].len() > 0);
            assert(sf[0][0] != HASH_SIGN);
        }
        if bytes_eq(fields[0].as_slice(), "v".as_bytes()) {
            assert(sf[0] == kw_v());
            if fields.len() != 4 {
                return false;
            }
            if !check_number(fields[1].as_slice()) || !check_number(fields[2].as_slice())
                || !check_number(fields[3].as_slice()) {
                return false;
            }
            let t3 = fields.remove(3);
            let t2 = fields.remove(2);
            let t1 = fields.remove(1);
            self.positions.push(t1);
            self.positions.push(t2);
            self.positions.push(t3);
            proof {
                let st2 = spec_apply_obj_line(pre, line@).unwrap();
                assert(self@.positions =~= st2.positions);
                assert(self@ == st2);
            }
            true
        } else if bytes_eq(fields[0].as_slice(), "vt".as_bytes()) {
            assert(sf[0] == kw_vt());
            if fields.len() != 3 {
                return false;
            }
            if !check_number(fields[1].as_slice()) || !check_number(fields[2].as_slice()) {
                return false;
            }
            let t2 = fields.remove(2);
            let t1 = fields.remove(1);
            self.texcoords.push(t1);
            self.texcoords.push(t2);
            proof {
                let st2 = spec_apply_obj_line(pre, line@).unwrap();
                assert(self@.texcoords =~= st2.texcoords);
                assert(self@ == st2);
            }
            true
        } else if bytes_eq(fields[0].as_slice(), "vn".as_bytes()) {
            assert(sf[0] == kw_vn());
            if fields.len() != 4 {
                return false;
            }
            if !check_number(fields[1].as_slice()) || !check_number(fields[2].as_slice())
                || !check_number(fields[3].as_slice()) {
                return false;
            }
            let t3 = fields.remove(3);
            let t2 = fields.remove(2);
            let t1 = fields.remove(1);
            self.normals.push(t1);
            self.normals.push(t2);
            self.normals.push(t3);
            proof {
                let st2 = spec_apply_obj_line(pre, line@).unwrap();
                assert(self@.normals =~= st2.normals);
                assert(self@ == st2);
            }
            true
        } else if bytes_eq(fields[0].as_slice(), "f".as_bytes()) {
            assert(sf[0] == kw_f());
            assert(fields.deep_view() == sf);
            self.apply_face(&fields)
        } else if bytes_eq(fields[0].as_slice(), "o".as_bytes()) || bytes_eq(
            fields[0].as_slice(),
            "g".as_bytes(),
        ) {
            assert(sf[0] == kw_o() || sf[0] == kw_g());
            if fields.len() != 2 {
                return false;
            }
            let name = fields.remove(1);
            self.close_model(name);
            proof {
                assert(self@ == spec_apply_obj_line(pre, line@).unwrap());
            }
            true
        } else if bytes_eq(fields[0].as_slice(), "usemtl".as_bytes()) {
            assert(sf[0] == kw_usemtl());
            if fields.len() != 2 {
                return false;
            }
            let name = fields.remove(1);
            self.cur_material = Some(name);
            proof {
                assert(self@ == spec_apply_obj_line(pre, line@).unwrap());
            }
            true
        } else if bytes_eq(fields[0].as_slice(), "mtllib".as_bytes()) {
            assert(sf[0] == kw_mtllib());
            if fields.len() < 2 {
                return false;
            }
            let _kw = fields.remove(0);
            let ghost rest = fields.deep_view();
            proof {
                assert(rest =~= sf.drop_first());
            }
            self.mtl_libraries.append(&mut fields);
            proof {
                assert(self@.mtl_libraries =~= pre.mtl_libraries + sf.drop_first());
                assert(self@ == spec_apply_obj_line(pre, line@).unwrap());
            }
            true
        } else {
            true
        }
    }
}

/// Decodes a model description, exactly as `spec_parse_obj` describes: the
/// named groups with their triangulated, single-indexed geometry and the
/// referenced material libraries, or a parse error for an invalid text.
pub fn parse_obj(text: &[u8]) -> (r: Result<ObjDocument, FetchError>)
    ensures
        r matches Ok(d) ==> spec_parse_obj(text@) == Some(d@),
        r is Err <==> spec_parse_obj(text@) is None,
        r matches Err(e) ==> e == FetchError::ParseError,
{
    let lines = split(text, LINE_FEED);
    let ghost all = lines.deep_view();
    let mut b = ObjBuilder {
        positions: Vec::new(),
        normals: Vec::new(),
        texcoords: Vec::new(),
        models: Vec::new(),
        cur: Mesh::new(),
        cur_name: Vec::new(),
        cur_shape: None,
        cur_material: None,
        mtl_libraries: Vec::new(),
    };
    proof {
        assert(b@.positions =~= spec_obj_init().positions);
        assert(b@.normals =~= spec_obj_init().normals);
        assert(b@.texcoords =~= spec_obj_init().texcoords);
        assert(b@.models =~= spec_obj_init().models);
        assert(b@.cur_name =~= spec_obj_init().cur_name);
        assert(b@.mtl_libraries =~= spec_obj_init().mtl_libraries);
        assert(b@ == spec_obj_init());
        assert(all.skip(0) =~= all);
    }
    let n = lines.len();
    for i in 0..n
        invariant
            n == all.len() == lines@.len(),
            all == lines.deep_view(),
            all == spec_lines(text@),
            spec_obj_fold(all.skip(i as int), b@) == spec_obj_fold(all, spec_obj_init()),
    {
        proof {
            lemma_skip_step(all, i as int);
            assert(all[i as int] == lines@[i as int]@);
        }
        let ghost pre_b = b@;
        let ok = b.apply_line(&lines[i]);
        if !ok {
            proof {
                assert(spec_apply_obj_line(pre_b, all[i as int]) is None);
                assert(spec_obj_fold(all.skip(i as int), pre_b) is None);
            }
            return Err(FetchError::ParseError);
        }
        proof {
            assert(spec_apply_obj_line(pre_b, all[i as int]) == Some(b@));
            assert(spec_obj_fold(all.skip(i as int), pre_b) == spec_obj_fold(
                all.skip(i as int).drop_first(),
                b@,
            ));
            assert(spec_obj_fold(all.skip(i + 1), b@) == spec_obj_fold(all, spec_obj_init()));
        }
    }
    assert(all.skip(n as int) =~= Seq::<Seq<u8>>::empty());
    let ghost st_final = b@;
    let empty_name: Vec<u8> = Vec::new();
    proof {
        assert(empty_name@ =~= Seq::<u8>::empty());
    }
    b.close_model(empty_name);
    let doc = ObjDocument { models: b.models, mtl_libraries: b.mtl_libraries };
    proof {
        assert(doc@ == spec_obj_finalize(st_final));
        assert(spec_parse_obj(text@) == Some(doc@));
    }
    Ok(doc)
}

} // verus!
