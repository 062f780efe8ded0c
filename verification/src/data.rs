//! The builder through which a decoded file is handed over, and the
//! collector that keeps everything in memory.

use vstd::prelude::*;

use crate::default_palette::default_colors;
use crate::types::{Color, Model, ModelView, Palette, Size, Version, Voxel};

verus! {

/// A builder for one model.
///
/// The two predicates say what an implementation promises of its methods.
/// One that promises nothing leaves them as they are.
pub trait VoxModelBuffer: Sized {
    /// Whether `model` is what `new` makes of `size`.
    open spec fn created(size: Size, model: Self) -> bool {
        true
    }

    /// Whether `after` is what `set_voxel` makes of `before`.
    open spec fn voxel_set(before: Self, after: Self, voxel: Voxel, palette: Seq<Color>) -> bool {
        true
    }

    /// A model of extent `size` without voxels.
    fn new(size: Size) -> (r: Self)
        ensures
            Self::created(size, r),
    ;

    /// Takes one voxel of the model.
    fn set_voxel(&mut self, voxel: Voxel, palette: &Palette)
        ensures
            Self::voxel_set(*old(self), *final(self), voxel, palette@),
    ;
}

impl VoxModelBuffer for Model {
    open spec fn created(size: Size, model: Model) -> bool {
        model@ == (ModelView { size, voxels: Seq::empty() })
    }

    open spec fn voxel_set(before: Model, after: Model, voxel: Voxel, palette: Seq<Color>) -> bool {
        after@ == (ModelView { size: before.size, voxels: before.voxels@.push(voxel) })
    }

    fn new(size: Size) -> (r: Model) {
        Model { size, voxels: Vec::new() }
    }

    fn set_voxel(&mut self, voxel: Voxel, palette: &Palette) {
        self.voxels.push(voxel);
    }
}

/// A builder for what a file holds. A reader calls `set_version` first,
/// then `set_palette` once, with the palette of the file or, where the file
/// has none of its own, with the built-in one, then `set_num_models`, and
/// then for each model `set_model_size` followed by one `set_voxel` for each
/// of its voxels.
///
/// The predicates say what an implementation promises of its methods; one
/// that promises nothing leaves them as they are. What a reader promises of
/// the builder after reading is stated over them.
pub trait VoxBuffer: Sized {
    /// Whether `after` is what `set_version` makes of `before`.
    open spec fn version_set(before: Self, after: Self, version: Version) -> bool {
        true
    }

    /// Whether `after` is what `set_num_models` makes of `before`.
    open spec fn num_models_set(before: Self, after: Self, num_models: usize) -> bool {
        true
    }

    /// Whether `after` is what `set_model_size` makes of `before`.
    open spec fn model_begun(before: Self, after: Self, size: Size) -> bool {
        true
    }

    /// Whether `after` is what `set_voxel` makes of `before`.
    open spec fn voxel_set(before: Self, after: Self, voxel: Voxel) -> bool {
        true
    }

    /// Whether `after` is what `set_palette` makes of `before`.
    open spec fn palette_set(before: Self, after: Self, palette: Seq<Color>) -> bool {
        true
    }

    /// Whether a model was begun, so that a voxel can be set.
    open spec fn has_model(&self) -> bool {
        true
    }

    /// Called once the version of the file is read.
    fn set_version(&mut self, version: Version)
        ensures
            Self::version_set(*old(self), *final(self), version),
    ;

    /// Called once the number of models is known.
    fn set_num_models(&mut self, num_models: usize)
        ensures
            Self::num_models_set(*old(self), *final(self), num_models),
    ;

    /// Called for each model, before its voxels.
    fn set_model_size(&mut self, model_size: Size)
        ensures
            Self::model_begun(*old(self), *final(self), model_size),
            final(self).has_model(),
    ;

    /// Called for each voxel of the model that was begun last. It must not
    /// be called before a model is begun.
    fn set_voxel(&mut self, voxel: Voxel)
        requires
            old(self).has_model(),
        ensures
            Self::voxel_set(*old(self), *final(self), voxel),
            final(self).has_model(),
    ;

    /// Called once with the palette of the file, or with the built-in one
    /// where the file has none of its own, before any voxel.
    fn set_palette(&mut self, palette: Palette)
        ensures
            Self::palette_set(*old(self), *final(self), palette@),
    ;
}

/// A builder that collects the models of a file in a vector.
#[derive(Debug)]
pub struct VoxModels<V> {
    pub version: Version,
    pub models: Vec<V>,
    pub palette: Palette,
}

/// A builder that collects models whose voxels are kept in file order.
pub type VoxData = VoxModels<Model>;

/// What a [`VoxData`] holds.
pub struct VoxDataView {
    pub version: Version,
    pub models: Seq<ModelView>,
    pub palette: Seq<Color>,
}

/// The views of the models, in order.
pub open spec fn model_views(models: Seq<Model>) -> Seq<ModelView> {
    Seq::new(models.len(), |i: int| models[i]@)
}

impl View for VoxModels<Model> {
    type V = VoxDataView;

    open spec fn view(&self) -> VoxDataView {
        VoxDataView {
            version: self.version,
            models: model_views(self.models@),
            palette: self.palette@,
        }
    }
}

/// What an empty collector of the given version holds: no model, and the
/// built-in palette.
pub open spec fn empty_models(version: Version) -> VoxDataView {
    VoxDataView { version, models: Seq::empty(), palette: default_colors() }
}

impl<V> VoxModels<V> {
    /// Whether `after` holds the models of `before`.
    pub open spec fn same_models(before: Self, after: Self) -> bool {
        after.models@ == before.models@
    }

    /// Whether `after` holds the models of `before` but for the last one.
    pub open spec fn same_models_but_last(before: Self, after: Self) -> bool {
        &&& before.models@.len() > 0
        &&& after.models@.len() == before.models@.len()
        &&& after.models@.drop_last() == before.models@.drop_last()
    }

    /// An empty collector of the given version, with the built-in palette.
    pub fn new(version: Version) -> (r: VoxModels<V>)
        ensures
            r.version == version,
            r.models@ == Seq::<V>::empty(),
            r.palette@ == default_colors(),
    {
        VoxModels { version, models: Vec::new(), palette: Palette::default() }
    }
}

impl<V> Default for VoxModels<V> {
    /// An empty collector of the supported version, with the built-in
    /// palette.
    fn default() -> (r: VoxModels<V>)
        ensures
            r.version == Version(150),
            r.models@ == Seq::<V>::empty(),
            r.palette@ == default_colors(),
    {
        VoxModels::new(Version(150))
    }
}

impl<V: VoxModelBuffer> VoxBuffer for VoxModels<V> {
    open spec fn version_set(before: Self, after: Self, version: Version) -> bool {
        &&& after.version == version
        &&& Self::same_models(before, after)
        &&& after.palette@ == before.palette@
    }

    open spec fn num_models_set(before: Self, after: Self, num_models: usize) -> bool {
        &&& after.version == before.version
        &&& Self::same_models(before, after)
        &&& after.palette@ == before.palette@
    }

    open spec fn model_begun(before: Self, after: Self, size: Size) -> bool {
        &&& after.version == before.version
        &&& after.palette@ == before.palette@
        &&& after.models@.len() == before.models@.len() + 1
        &&& after.models@.drop_last() == before.models@
        &&& V::created(size, after.models@.last())
    }

    open spec fn voxel_set(before: Self, after: Self, voxel: Voxel) -> bool {
        &&& after.version == before.version
        &&& after.palette@ == before.palette@
        &&& Self::same_models_but_last(before, after)
        &&& V::voxel_set(before.models@.last(), after.models@.last(), voxel, before.palette@)
    }

    open spec fn palette_set(before: Self, after: Self, palette: Seq<Color>) -> bool {
        &&& after.version == before.version
        &&& Self::same_models(before, after)
        &&& after.palette@ == palette
    }

    open spec fn has_model(&self) -> bool {
        self.models@.len() > 0
    }

    fn set_version(&mut self, version: Version) {
        self.version = version;
    }

    fn set_num_models(&mut self, num_models: usize) {
        let _ = self.models.try_reserve(num_models);
    }

    fn set_model_size(&mut self, model_size: Size) {
        self.models.push(V::new(model_size));
        assert(self.models@.drop_last() =~= old(self).models@);
    }

    fn set_voxel(&mut self, voxel: Voxel) {
        let last = self.models.len() - 1;
        let model = &mut self.models[last];
        model.set_voxel(voxel, &self.palette);
        assert(self.models@.drop_last() =~= old(self).models@.drop_last());
    }

    fn set_palette(&mut self, palette: Palette) {
        self.palette = palette;
    }
}

} // verus!
