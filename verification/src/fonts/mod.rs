//! Font discovery: the faces a font file holds, how a catalogue is merged
//! from the system registry and the configured directories, and the disk
//! cache that keeps it between runs.
//!
//! Variable fonts with fvar named instances yield one `FaceInfo` per
//! instance, as CoreText does on the upstream agent.

pub mod cache;
pub mod catalog;
pub mod dirs;
pub mod fixed;
pub mod names;
pub mod parser;
pub mod platform;

use vstd::prelude::*;

verus! {

/// A variation axis record as the font parser read it (tag, range,
/// default, name id, hidden flag).  The library carries it unchanged.
#[verifier::external_type_specification]
#[verifier::external_body]
pub struct ExVariationAxis(ttf_parser::VariationAxis);

/// One variation axis of a face.
pub struct AxisInfo {
    pub tag: String,
    pub name: String,
    /// The axis record: its minimum, default and maximum values.
    pub range: ttf_parser::VariationAxis,
    /// The named instance's coordinate (16.16 fixed point); `None` means the
    /// axis sits at its default.
    pub coord: Option<i32>,
    pub hidden: bool,
}

pub struct AxisView {
    pub tag: Seq<char>,
    pub name: Seq<char>,
    pub range: ttf_parser::VariationAxis,
    pub coord: Option<i32>,
    pub hidden: bool,
}

impl View for AxisInfo {
    type V = AxisView;

    open spec fn view(&self) -> AxisView {
        AxisView {
            tag: self.tag@,
            name: self.name@,
            range: self.range,
            coord: self.coord,
            hidden: self.hidden,
        }
    }
}

pub open spec fn axes_view(axes: Seq<AxisInfo>) -> Seq<AxisView> {
    axes.map_values(|a: AxisInfo| a@)
}

/// One face (a TTC member or a named instance) as the catalogue lists it.
pub struct FaceInfo {
    pub family: String,
    pub style: String,
    pub postscript: String,
    pub weight: u16,
    pub stretch: u8,
    pub italic: bool,
    pub variation_axes: Vec<AxisInfo>,
    pub modified_at: u64,
    pub user_installed: bool,
}

pub struct FaceView {
    pub family: Seq<char>,
    pub style: Seq<char>,
    pub postscript: Seq<char>,
    pub weight: u16,
    pub stretch: u8,
    pub italic: bool,
    pub axes: Seq<AxisView>,
    pub modified_at: u64,
    pub user_installed: bool,
}

impl View for FaceInfo {
    type V = FaceView;

    open spec fn view(&self) -> FaceView {
        FaceView {
            family: self.family@,
            style: self.style@,
            postscript: self.postscript@,
            weight: self.weight,
            stretch: self.stretch,
            italic: self.italic,
            axes: axes_view(self.variation_axes@),
            modified_at: self.modified_at,
            user_installed: self.user_installed,
        }
    }
}

pub open spec fn faces_view(faces: Seq<FaceInfo>) -> Seq<FaceView> {
    faces.map_values(|f: FaceInfo| f@)
}

/// A family the catalogue shows: non-empty and not hidden behind a leading dot.
pub open spec fn visible_family(family: Seq<char>) -> bool {
    family.len() > 0 && family[0] != '.'
}

impl AxisInfo {
    pub fn copy(&self) -> (res: AxisInfo)
        ensures
            res@ == self@,
    {
        AxisInfo {
            tag: self.tag.clone(),
            name: self.name.clone(),
            range: self.range,
            coord: self.coord,
            hidden: self.hidden,
        }
    }
}

impl FaceInfo {
    pub fn copy(&self) -> (res: FaceInfo)
        ensures
            res@ == self@,
    {
        let mut axes: Vec<AxisInfo> = Vec::new();
        for i in 0..self.variation_axes.len()
            invariant
                axes@.len() == i,
                forall|j: int| 0 <= j < i ==> #[trigger] axes@[j]@ == self.variation_axes@[j]@,
        {
            axes.push(self.variation_axes[i].copy());
        }
        assert(axes_view(axes@) =~= axes_view(self.variation_axes@));
        FaceInfo {
            family: self.family.clone(),
            style: self.style.clone(),
            postscript: self.postscript.clone(),
            weight: self.weight,
            stretch: self.stretch,
            italic: self.italic,
            variation_axes: axes,
            modified_at: self.modified_at,
            user_installed: self.user_installed,
        }
    }
}

}
