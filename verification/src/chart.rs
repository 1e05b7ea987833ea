//! Chart descriptions.
//!
//! Recorded histories are rendered outside the kernel.  What the kernel's
//! side decides — axis captions, label typography, where the series legend
//! sits and how opaque its backdrop is — is computed here as plain data; a
//! rendering backend applies it when it draws the picture.

use vstd::prelude::*;

verus! {

/// How a chart's mesh (grid and axes) is annotated.
pub struct MeshDescription {
    /// Caption of the horizontal axis.
    pub x_desc: String,
    /// Caption of the vertical axis.
    pub y_desc: String,
    /// Font family of the axis labels.
    pub label_font: String,
    /// Point size of the axis labels.
    pub label_size: u32,
}

/// How a chart's series legend is drawn.
pub struct SeriesLabelDescription {
    /// The legend backdrop covers the plot with this opacity, in percent.
    pub background_opacity_percent: u32,
    /// Whether the legend has a drawn border.
    pub bordered: bool,
    /// Whether the legend sits in the upper-right corner of the plot.
    pub upper_right: bool,
}

/// The mesh annotation used for every chart: the given axis captions in
/// 20-point sans-serif.
pub fn configure_mesh(x: &str, y: &str) -> (m: MeshDescription)
    ensures
        m.x_desc@ == x@,
        m.y_desc@ == y@,
        m.label_font@ == "sans-serif"@,
        m.label_size == 20,
{
    MeshDescription {
        x_desc: x.to_owned(),
        y_desc: y.to_owned(),
        label_font: "sans-serif".to_owned(),
        label_size: 20,
    }
}

/// The series-legend style used for every chart: a bordered box in the
/// upper-right corner over a backdrop of eighty percent opacity.
pub fn draw_series_labels() -> (s: SeriesLabelDescription)
    ensures
        s.background_opacity_percent == 80,
        s.bordered,
        s.upper_right,
{
    SeriesLabelDescription { background_opacity_percent: 80, bordered: true, upper_right: true }
}

} // verus!
