//! The mesh that the reader builds: vertex positions, vertex normals, face
//! indices and a uniform scale.

use vstd::prelude::*;
use crate::literal::{is_float_literal, is_float_text};

verus! {

/// The three coordinates of a position or a direction, each the text of a
/// floating-point literal.
pub type Triple = (Seq<u8>, Seq<u8>, Seq<u8>);

/// A floating-point number, held as the literal text that denotes it
/// (`1.0`, `-2.5e3`, `inf`).
#[derive(Debug)]
pub struct Number {
    text: Vec<u8>,
}

impl View for Number {
    type V = Seq<u8>;

    closed spec fn view(&self) -> Seq<u8> {
        self.text@
    }
}

pub fn copy_bytes(s: &[u8]) -> (r: Vec<u8>)
    ensures
        r@ == s@,
{
    let mut r: Vec<u8> = Vec::new();
    let mut i: usize = 0;
    while i < s.len()
        invariant
            i <= s.len(),
            r@ =~= s@.take(i as int),
        decreases s.len() - i,
    {
        r.push(s[i]);
        i = i + 1;
        assert(r@ =~= s@.take(i as int));
    }
    assert(s@.take(i as int) =~= s@);
    r
}

impl Number {
    #[verifier::type_invariant]
    spec fn is_literal(&self) -> bool {
        is_float_literal(self.text@)
    }

    /// The number that a token denotes; `None` where it is no literal.
    pub fn from_text(s: &[u8]) -> (r: Option<Number>)
        ensures
            r is Some <==> is_float_literal(s@),
            r matches Some(n) ==> n@ == s@,
    {
        if is_float_text(s) {
            Some(Number { text: copy_bytes(s) })
        } else {
            None
        }
    }

    /// The literal `1.0`.
    pub fn one() -> (r: Number)
        ensures
            r@ == one_text(),
    {
        let text = vec![49u8, 46, 48];
        assert(text@ =~= one_text());
        proof {
            lemma_one_literal();
        }
        Number { text }
    }

    /// The literal `0.0`.
    pub fn zero() -> (r: Number)
        ensures
            r@ == zero_text(),
    {
        let text = vec![48u8, 46, 48];
        assert(text@ =~= zero_text());
        assert(is_float_literal(zero_text())) by {
            let t = crate::literal::lowered(zero_text());
            assert(t =~= zero_text());
            assert(crate::literal::is_digit(t[0]));
        }
        Number { text }
    }

    pub fn text(&self) -> (r: &[u8])
        ensures
            r@ == self@,
            is_float_literal(r@),
    {
        proof {
            use_type_invariant(self);
        }
        self.text.as_slice()
    }
}

impl Clone for Number {
    fn clone(&self) -> Self {
        proof {
            use_type_invariant(self);
        }
        Number { text: copy_bytes(self.text.as_slice()) }
    }
}

pub open spec fn one_text() -> Seq<u8> {
    seq![49u8, 46, 48]
}

pub open spec fn zero_text() -> Seq<u8> {
    seq![48u8, 46, 48]
}

pub proof fn lemma_one_literal()
    ensures
        is_float_literal(one_text()),
{
    let t = crate::literal::lowered(one_text());
    assert(t =~= one_text());
    assert(crate::literal::is_digit(t[0]));
}

pub open spec fn triple_view(t: (Number, Number, Number)) -> Triple {
    (t.0@, t.1@, t.2@)
}

/// A vertex position.
#[derive(Debug)]
pub struct Vertex {
    pub position: (Number, Number, Number),
}

impl View for Vertex {
    type V = Triple;

    open spec fn view(&self) -> Triple {
        triple_view(self.position)
    }
}

impl Clone for Vertex {
    fn clone(&self) -> Self {
        Vertex {
            position: (self.position.0.clone(), self.position.1.clone(), self.position.2.clone()),
        }
    }
}

/// A vertex normal: a direction, paired with the vertex of the same place.
#[derive(Debug)]
pub struct Normal {
    pub normal: (Number, Number, Number),
}

impl View for Normal {
    type V = Triple;

    open spec fn view(&self) -> Triple {
        triple_view(self.normal)
    }
}

impl Clone for Normal {
    fn clone(&self) -> Self {
        Normal { normal: (self.normal.0.clone(), self.normal.1.clone(), self.normal.2.clone()) }
    }
}

/// What a mesh holds, as plain values.
pub ghost struct MeshModel {
    pub vertices: Seq<Triple>,
    pub normals: Seq<Triple>,
    pub indices: Seq<u16>,
    pub scale: Seq<u8>,
}

/// A mesh before any line is read: nothing but the scale `1.0`.
pub open spec fn empty_mesh() -> MeshModel {
    MeshModel { vertices: seq![], normals: seq![], indices: seq![], scale: one_text() }
}

/// A mesh, and the place and texture that a caller gives it once it is read.
#[derive(Debug)]
pub struct Model {
    pub position: (Number, Number, Number),
    pub scale: Number,
    pub vertices: Vec<Vertex>,
    pub normals: Vec<Normal>,
    pub indices: Vec<u16>,
    pub tex_path: Option<String>,
}

impl Clone for Model {
    fn clone(&self) -> Self {
        Model {
            position: (self.position.0.clone(), self.position.1.clone(), self.position.2.clone()),
            scale: self.scale.clone(),
            vertices: self.vertices.clone(),
            normals: self.normals.clone(),
            indices: self.indices.clone(),
            tex_path: self.tex_path.clone(),
        }
    }
}

impl View for Model {
    type V = MeshModel;

    open spec fn view(&self) -> MeshModel {
        MeshModel {
            vertices: self.vertices@.map_values(|v: Vertex| v@),
            normals: self.normals@.map_values(|n: Normal| n@),
            indices: self.indices@,
            scale: self.scale@,
        }
    }
}

impl Model {
    pub fn new() -> (r: Model)
        ensures
            r@ == empty_mesh(),
            r.tex_path is None,
            triple_view(r.position) == (zero_text(), zero_text(), zero_text()),
    {
        let r = Model {
            position: (Number::zero(), Number::zero(), Number::zero()),
            scale: Number::one(),
            vertices: Vec::new(),
            normals: Vec::new(),
            indices: Vec::new(),
            tex_path: None,
        };
        assert(r@.vertices =~= seq![]);
        assert(r@.normals =~= seq![]);
        r
    }

    pub fn set_tex_path(&mut self, path: String)
        ensures
            final(self)@ == old(self)@,
            final(self).tex_path == Some(path),
            triple_view(final(self).position) == triple_view(old(self).position),
    {
        self.tex_path = Some(path);
    }
}

} // verus!
