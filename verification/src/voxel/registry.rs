//! The voxel type registry: what meshing and lighting need to know of each
//! voxel type.

use vstd::prelude::*;
use crate::voxel::types::VoxelTypeId;

verus! {

/// How much light and sight a voxel type lets through.
#[derive(Clone, Copy, Debug, PartialEq, Eq, Structural, Hash)]
pub enum Transparency {
    /// Blocks light and hides neighboring faces.
    Opaque,
    /// Lets light through with extra attenuation (glass, water).
    SemiTransparent,
    /// Lets light through unchanged (air).
    FullyTransparent,
}

/// The definition of one voxel type.
#[derive(Clone, Debug)]
pub struct VoxelTypeDef {
    /// Human-readable name.
    pub name: String,
    /// Whether the voxel occludes ambient light and collides.
    pub solid: bool,
    /// How much light passes through.
    pub transparency: Transparency,
    /// Index of the material used to render the voxel.
    pub material_index: u16,
    /// Block light emitted by the voxel (0–15).
    pub light_emission: u8,
}

/// Returned by [`VoxelTypeRegistry::register`] when every id is taken.
#[derive(Clone, Copy, Debug, PartialEq, Eq, Structural)]
pub enum RegistryError {
    /// All 65536 voxel type ids are in use.
    Full,
}

/// What the rules read of a voxel type.
#[derive(Clone, Copy, Debug, PartialEq, Eq, Structural)]
pub struct TypeTraits {
    /// See [`VoxelTypeDef::solid`].
    pub solid: bool,
    /// See [`VoxelTypeDef::transparency`].
    pub transparency: Transparency,
    /// See [`VoxelTypeDef::light_emission`].
    pub light_emission: u8,
}

/// The traits of a definition.
pub open spec fn traits_of(def: VoxelTypeDef) -> TypeTraits {
    TypeTraits { solid: def.solid, transparency: def.transparency, light_emission: def.light_emission }
}

/// The traits of air: not solid, fully transparent, dark.
pub open spec fn air_traits() -> TypeTraits {
    TypeTraits { solid: false, transparency: Transparency::FullyTransparent, light_emission: 0 }
}

/// Registry of voxel types; id `n` is the `n`-th registered type and id 0
/// is air. Ids that were never registered read as air.
pub struct VoxelTypeRegistry {
    types: Vec<VoxelTypeDef>,
}

impl View for VoxelTypeRegistry {
    type V = Seq<TypeTraits>;

    closed spec fn view(&self) -> Seq<TypeTraits> {
        self.types@.map_values(|d: VoxelTypeDef| traits_of(d))
    }
}

/// The traits of `id` in a registry whose types are `types`.
pub open spec fn traits_at(types: Seq<TypeTraits>, id: VoxelTypeId) -> TypeTraits {
    if (id.0 as int) < types.len() {
        types[id.0 as int]
    } else {
        air_traits()
    }
}

/// Whether `id` is air.
pub open spec fn is_air_spec(id: VoxelTypeId) -> bool {
    id.0 == 0
}

/// Whether `id` is solid in a registry whose types are `types`.
pub open spec fn is_solid_spec(types: Seq<TypeTraits>, id: VoxelTypeId) -> bool {
    traits_at(types, id).solid
}

/// Whether `id` lets light through in a registry whose types are `types`.
pub open spec fn is_transparent_spec(types: Seq<TypeTraits>, id: VoxelTypeId) -> bool {
    traits_at(types, id).transparency != Transparency::Opaque
}

impl VoxelTypeRegistry {
    /// The name and material index of each registered type, by id.
    pub closed spec fn labels(&self) -> Seq<(Seq<char>, u16)> {
        self.types@.map_values(|d: VoxelTypeDef| (d.name@, d.material_index))
    }

    /// A registry holding only air, at id 0.
    pub fn new() -> (r: Self)
        ensures
            r@ == seq![air_traits()],
            r.labels() == seq![(Seq::<char>::empty(), 0u16)],
    {
        let air = VoxelTypeDef {
            name: String::new(),
            solid: false,
            transparency: Transparency::FullyTransparent,
            material_index: 0,
            light_emission: 0,
        };
        let mut types = Vec::new();
        types.push(air);
        let r = VoxelTypeRegistry { types };
        assert(r@ =~= seq![air_traits()]);
        assert(r.labels() =~= seq![(Seq::<char>::empty(), 0u16)]);
        r
    }

    /// Registers a type and returns its id, the next free one.
    pub fn register(&mut self, def: VoxelTypeDef) -> (r: Result<VoxelTypeId, RegistryError>)
        ensures
            old(self)@.len() < 65536 ==> r == Ok::<VoxelTypeId, RegistryError>(VoxelTypeId(old(self)@.len() as u16))
                && final(self)@ == old(self)@.push(traits_of(def))
                && final(self).labels() == old(self).labels().push((def.name@, def.material_index)),
            old(self)@.len() >= 65536 ==> r == Err::<VoxelTypeId, RegistryError>(RegistryError::Full)
                && final(self)@ == old(self)@ && final(self).labels() == old(self).labels(),
    {
        if self.types.len() >= 65536 {
            return Err(RegistryError::Full);
        }
        let id = VoxelTypeId(self.types.len() as u16);
        let ghost before = self.types@;
        self.types.push(def);
        assert(self@ =~= old(self)@.push(traits_of(def))) by {
            assert(self.types@ == before.push(def));
        }
        assert(self.labels() =~= old(self).labels().push((def.name@, def.material_index)));
        Ok(id)
    }

    /// Number of registered types, air included.
    pub fn len(&self) -> (r: usize)
        ensures
            r == self@.len(),
    {
        self.types.len()
    }

    /// The traits of `id`; unknown ids read as air.
    pub fn traits(&self, id: VoxelTypeId) -> (r: TypeTraits)
        ensures
            r == traits_at(self@, id),
    {
        if (id.0 as usize) < self.types.len() {
            let d = &self.types[id.0 as usize];
            TypeTraits { solid: d.solid, transparency: d.transparency, light_emission: d.light_emission }
        } else {
            TypeTraits { solid: false, transparency: Transparency::FullyTransparent, light_emission: 0 }
        }
    }

    /// Whether `id` is air.
    pub fn is_air(&self, id: VoxelTypeId) -> (r: bool)
        ensures
            r == is_air_spec(id),
    {
        id.0 == 0
    }

    /// Whether `id` is solid; unknown ids are not.
    pub fn is_solid(&self, id: VoxelTypeId) -> (r: bool)
        ensures
            r == is_solid_spec(self@, id),
    {
        self.traits(id).solid
    }

    /// Whether `id` lets light through; unknown ids do.
    pub fn is_transparent(&self, id: VoxelTypeId) -> (r: bool)
        ensures
            r == is_transparent_spec(self@, id),
    {
        let t = self.traits(id);
        match t.transparency {
            Transparency::Opaque => false,
            _ => true,
        }
    }
}

} // verus!
