//! Materials of the particles, and what each material asks of the
//! constitutive model.
use vstd::prelude::*;

verus! {

/// What a particle is made of.
#[derive(Copy, Clone, Debug, PartialEq, Eq, Structural)]
pub enum Material {
    /// A viscous fluid: it keeps its volume and forgets its shape.
    Fluid,
    /// An elastic solid, softer than the reference material.
    Jelly,
    /// Snow: elastic within narrow bounds of stretch, plastic beyond them.
    Snow,
}

/// How the elastic constants of a material follow from the reference ones.
#[derive(Copy, Clone, Debug, PartialEq, Eq, Structural)]
pub enum LameScale {
    /// Both constants are zero.
    Zero,
    /// Both constants are three tenths of the reference ones.
    Softened,
    /// Both constants are the reference ones times the hardening of the particle.
    Hardened,
}

/// What the constitutive model does with a particle of one material.
#[derive(Copy, Clone, Debug, PartialEq, Eq, Structural)]
pub struct MaterialRule {
    /// How the elastic constants are scaled.
    pub lame: LameScale,
    /// Whether the singular values of the deformation gradient are clamped,
    /// the clamped part going into the plastic volume change.
    pub clamps_stretch: bool,
    /// Whether the deformation gradient is rebuilt as a pure scaling that
    /// keeps the volume, rather than from its rotations and stretches.
    pub isotropic: bool,
}

impl Material {
    /// The number that stands for this material in a buffer.
    pub open spec fn tag(self) -> u8 {
        match self {
            Material::Fluid => 0,
            Material::Jelly => 1,
            Material::Snow => 2,
        }
    }

    /// The material that `value` stands for, if any.
    pub open spec fn spec_from_tag(value: u8) -> Option<Material> {
        if value == 0 {
            Some(Material::Fluid)
        } else if value == 1 {
            Some(Material::Jelly)
        } else if value == 2 {
            Some(Material::Snow)
        } else {
            None
        }
    }

    /// What the constitutive model does with this material.
    pub open spec fn spec_rule(self) -> MaterialRule {
        match self {
            Material::Fluid => MaterialRule {
                lame: LameScale::Zero,
                clamps_stretch: false,
                isotropic: true,
            },
            Material::Jelly => MaterialRule {
                lame: LameScale::Softened,
                clamps_stretch: false,
                isotropic: false,
            },
            Material::Snow => MaterialRule {
                lame: LameScale::Hardened,
                clamps_stretch: true,
                isotropic: false,
            },
        }
    }

    /// Reads a material from its number; only 0, 1 and 2 stand for one.
    pub fn from_tag(value: u8) -> (r: Option<Material>)
        ensures
            r == Self::spec_from_tag(value),
            r is Some <==> value <= 2,
    {
        match value {
            0 => Some(Material::Fluid),
            1 => Some(Material::Jelly),
            2 => Some(Material::Snow),
            _ => None,
        }
    }

    /// Reads a material from a number of 32 bits, of which the lowest
    /// eight count.
    pub fn from_wide_tag(value: u32) -> (r: Option<Material>)
        ensures
            r == Self::spec_from_tag((value % 256) as u8),
    {
        Self::from_tag((value % 256) as u8)
    }

    /// What the constitutive model does with this material.
    pub fn rule(&self) -> (r: MaterialRule)
        ensures
            r == self.spec_rule(),
    {
        match self {
            Material::Fluid => MaterialRule {
                lame: LameScale::Zero,
                clamps_stretch: false,
                isotropic: true,
            },
            Material::Jelly => MaterialRule {
                lame: LameScale::Softened,
                clamps_stretch: false,
                isotropic: false,
            },
            Material::Snow => MaterialRule {
                lame: LameScale::Hardened,
                clamps_stretch: true,
                isotropic: false,
            },
        }
    }
}

/// A material and its number stand for each other.
pub proof fn lemma_material_tag_round_trip(m: Material, value: u8)
    ensures
        Material::spec_from_tag(m.tag()) == Some(m),
        Material::spec_from_tag(value) is Some ==> Material::spec_from_tag(value)->Some_0.tag()
            == value,
{
}

/// The number of a material as it lies in a buffer of plain bytes.
#[derive(Copy, Clone, Debug)]
pub struct MaterialPod(u8);

impl MaterialPod {
    /// The byte held.
    pub closed spec fn spec_u8(&self) -> u8 {
        self.0
    }

    /// Whether the byte held stands for a material.
    pub open spec fn is_valid(&self) -> bool {
        self.spec_u8() <= 2
    }

    /// Wraps a byte; nothing is asked of it.
    pub fn new(value: u8) -> (r: Self)
        ensures
            r.spec_u8() == value,
    {
        Self(value)
    }

    /// The byte that stands for `m`.
    pub fn from_material(m: Material) -> (r: Self)
        ensures
            r.spec_u8() == m.tag(),
            r.is_valid(),
    {
        match m {
            Material::Fluid => Self(0),
            Material::Jelly => Self(1),
            Material::Snow => Self(2),
        }
    }

    /// The material that the byte stands for.
    pub fn to_material(&self) -> (r: Material)
        requires
            self.is_valid(),
        ensures
            Some(r) == Material::spec_from_tag(self.spec_u8()),
            r.tag() == self.spec_u8(),
    {
        match self.0 {
            0 => Material::Fluid,
            1 => Material::Jelly,
            _ => Material::Snow,
        }
    }

    /// The material that the byte stands for, if it stands for one.
    pub fn try_to_material(&self) -> (r: Option<Material>)
        ensures
            r == Material::spec_from_tag(self.spec_u8()),
            r is Some <==> self.is_valid(),
    {
        Material::from_tag(self.0)
    }

    /// The byte held.
    pub fn u8(&self) -> (r: u8)
        ensures
            r == self.spec_u8(),
    {
        self.0
    }
}

impl From<Material> for MaterialPod {
    fn from(m: Material) -> (r: Self) {
        MaterialPod::from_material(m)
    }
}

impl vstd::std_specs::convert::FromSpecImpl<Material> for MaterialPod {
    open spec fn obeys_from_spec() -> bool {
        true
    }

    closed spec fn from_spec(m: Material) -> Self {
        MaterialPod(m.tag())
    }
}

impl From<MaterialPod> for u8 {
    fn from(mp: MaterialPod) -> (r: u8) {
        mp.u8()
    }
}

impl vstd::std_specs::convert::FromSpecImpl<MaterialPod> for u8 {
    open spec fn obeys_from_spec() -> bool {
        true
    }

    open spec fn from_spec(mp: MaterialPod) -> u8 {
        mp.spec_u8()
    }
}

} // verus!
