//! The decoded model data: named geometric groups with vertex, normal,
//! texture-coordinate and index arrays, and named materials with their
//! shading parameters.
//!
//! Coordinates are kept as the validated numeric tokens of the source text;
//! turning a token into a machine float is the host program's concern, so
//! nothing here depends on floating-point arithmetic.

use vstd::prelude::*;

verus! {

/// One shading parameter of a material: a key (such as the ambient,
/// diffuse or specular directive of the material format, or a texture
/// reference) and its value tokens.
#[derive(Debug)]
pub struct MaterialParam {
    pub key: Vec<u8>,
    pub values: Vec<Vec<u8>>,
}

/// The mathematical value of a [`MaterialParam`].
pub struct MaterialParamView {
    pub key: Seq<u8>,
    pub values: Seq<Seq<u8>>,
}

impl View for MaterialParam {
    type V = MaterialParamView;

    open spec fn view(&self) -> MaterialParamView {
        MaterialParamView { key: self.key@, values: self.values.deep_view() }
    }
}

impl DeepView for MaterialParam {
    type V = MaterialParamView;

    open spec fn deep_view(&self) -> MaterialParamView {
        self.view()
    }
}

/// A named material: the shading parameters listed under one `newmtl`
/// directive of a material library, in order.
#[derive(Debug)]
pub struct Material {
    pub name: Vec<u8>,
    pub params: Vec<MaterialParam>,
}

/// The mathematical value of a [`Material`].
pub struct MaterialView {
    pub name: Seq<u8>,
    pub params: Seq<MaterialParamView>,
}

impl View for Material {
    type V = MaterialView;

    open spec fn view(&self) -> MaterialView {
        MaterialView { name: self.name@, params: self.params.deep_view() }
    }
}

impl DeepView for Material {
    type V = MaterialView;

    open spec fn deep_view(&self) -> MaterialView {
        self.view()
    }
}

/// Single-indexed triangulated geometry. Each vertex owns three position
/// tokens, and three normal tokens and two texture-coordinate tokens when
/// the group carries them; each index names one vertex, and every three
/// indices form one triangle.
#[derive(Debug)]
pub struct Mesh {
    /// Position tokens, three per vertex.
    pub positions: Vec<Vec<u8>>,
    /// Normal tokens, three per vertex, or empty when the group has none.
    pub normals: Vec<Vec<u8>>,
    /// Texture-coordinate tokens, two per vertex, or empty when the group
    /// has none.
    pub texcoords: Vec<Vec<u8>>,
    /// Vertex indices, three per triangle.
    pub indices: Vec<usize>,
}

/// The mathematical value of a [`Mesh`].
pub struct MeshView {
    pub positions: Seq<Seq<u8>>,
    pub normals: Seq<Seq<u8>>,
    pub texcoords: Seq<Seq<u8>>,
    pub indices: Seq<int>,
}

impl View for Mesh {
    type V = MeshView;

    open spec fn view(&self) -> MeshView {
        MeshView {
            positions: self.positions.deep_view(),
            normals: self.normals.deep_view(),
            texcoords: self.texcoords.deep_view(),
            indices: Seq::new(self.indices@.len(), |i: int| self.indices@[i] as int),
        }
    }
}

impl DeepView for Mesh {
    type V = MeshView;

    open spec fn deep_view(&self) -> MeshView {
        self.view()
    }
}

impl MeshView {
    /// An empty mesh, before any face has been read.
    pub open spec fn empty() -> MeshView {
        MeshView {
            positions: Seq::empty(),
            normals: Seq::empty(),
            texcoords: Seq::empty(),
            indices: Seq::empty(),
        }
    }

    /// How many vertices the mesh holds.
    pub open spec fn vertex_count(&self) -> int {
        self.positions.len() as int / 3
    }

    /// A well-formed mesh: whole vertices and whole triangles, attribute
    /// arrays parallel to the positions when present, and every index
    /// naming an existing vertex.
    pub open spec fn wf(&self) -> bool {
        &&& self.positions.len() % 3 == 0
        &&& self.normals.len() == 3 * self.vertex_count() || self.normals.len() == 0
        &&& self.texcoords.len() == 2 * self.vertex_count() || self.texcoords.len() == 0
        &&& self.indices.len() % 3 == 0
        &&& forall|i: int| 0 <= i < self.indices.len() ==> 0 <= #[trigger] self.indices[i]
            < self.vertex_count()
    }
}

impl Mesh {
    /// An empty mesh.
    pub fn new() -> (r: Mesh)
        ensures
            r@ == MeshView::empty(),
    {
        let r = Mesh {
            positions: Vec::new(),
            normals: Vec::new(),
            texcoords: Vec::new(),
            indices: Vec::new(),
        };
        assert(r@.positions =~= MeshView::empty().positions);
        assert(r@.normals =~= MeshView::empty().normals);
        assert(r@.texcoords =~= MeshView::empty().texcoords);
        assert(r@.indices =~= MeshView::empty().indices);
        r
    }
}

/// One named geometric group of a model description, with the material it
/// uses, once resolved.
#[derive(Debug)]
pub struct Model {
    /// The group name, from the `o` or `g` directive, empty for geometry
    /// before the first such directive.
    pub name: Vec<u8>,
    /// The material name the group uses, from the `usemtl` directive in
    /// effect when the group ended, if any.
    pub material_name: Option<Vec<u8>>,
    /// The position of that material in the decoded material list, filled
    /// in when the materials are linked.
    pub material_id: Option<usize>,
    /// The group's geometry.
    pub mesh: Mesh,
}

/// The mathematical value of a [`Model`].
pub struct ModelView {
    pub name: Seq<u8>,
    pub material_name: Option<Seq<u8>>,
    pub material_id: Option<int>,
    pub mesh: MeshView,
}

impl View for Model {
    type V = ModelView;

    open spec fn view(&self) -> ModelView {
        ModelView {
            name: self.name@,
            material_name: match self.material_name {
                Some(ref n) => Some(n@),
                None => None,
            },
            material_id: match self.material_id {
                Some(i) => Some(i as int),
                None => None,
            },
            mesh: self.mesh@,
        }
    }
}

impl DeepView for Model {
    type V = ModelView;

    open spec fn deep_view(&self) -> ModelView {
        self.view()
    }
}

/// A parsed model description: its geometric groups and the material
/// libraries it references, each still to be fetched and decoded.
#[derive(Debug)]
pub struct ObjDocument {
    pub models: Vec<Model>,
    /// The resource names of the referenced material libraries, in the
    /// order their `mtllib` directives appear.
    pub mtl_libraries: Vec<Vec<u8>>,
}

/// The mathematical value of an [`ObjDocument`].
pub struct ObjDocumentView {
    pub models: Seq<ModelView>,
    pub mtl_libraries: Seq<Seq<u8>>,
}

impl View for ObjDocument {
    type V = ObjDocumentView;

    open spec fn view(&self) -> ObjDocumentView {
        ObjDocumentView {
            models: self.models.deep_view(),
            mtl_libraries: self.mtl_libraries.deep_view(),
        }
    }
}

} // verus!
