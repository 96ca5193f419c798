//! The main pass driver: decides, from the cameras extracted this frame,
//! which sub-graphs to run and which slot values to hand them. Running
//! the sub-graphs is the caller's work; the driver only decides.

use vstd::prelude::*;
use crate::slot::SlotValue;

verus! {

/// A sub-graph the driver asks the caller to run, with the values for
/// the sub-graph's input slots.
#[derive(Debug)]
pub struct SubGraphRun {
    pub sub_graph: String,
    pub inputs: Vec<SlotValue>,
}

/// Drives the two-dimensional and three-dimensional draw sub-graphs,
/// one per extracted camera.
#[derive(Clone, Copy, PartialEq, Eq, Structural, Default, Debug)]
pub struct MainPassDriverNode;

impl MainPassDriverNode {
    /// The sub-graphs to run this frame: the two-dimensional draw graph
    /// for the flat camera with its view entity and color texture, then
    /// the three-dimensional draw graph for the perspective camera with
    /// its view entity, color texture and depth texture. A camera that
    /// was not extracted runs nothing.
    pub fn run(&self, camera_2d: Option<(u64, u64)>, camera_3d: Option<(u64, u64, u64)>) -> (r:
        Vec<SubGraphRun>)
        ensures
            r@.len() == (if camera_2d is Some {
                1int
            } else {
                0int
            }) + (if camera_3d is Some {
                1int
            } else {
                0int
            }),
            camera_2d matches Some((entity, color)) ==> {
                &&& r@[0].sub_graph@ == "draw_2d"@
                &&& r@[0].inputs@ == seq![SlotValue::Entity(entity), SlotValue::Texture(color)]
            },
            camera_3d matches Some((entity, color, depth)) ==> {
                let i = if camera_2d is Some {
                    1int
                } else {
                    0int
                };
                &&& r@[i].sub_graph@ == "draw_3d"@
                &&& r@[i].inputs@ == seq![
                    SlotValue::Entity(entity),
                    SlotValue::Texture(color),
                    SlotValue::Texture(depth),
                ]
            },
    {
        let mut r: Vec<SubGraphRun> = Vec::new();
        match camera_2d {
            Some((entity, color)) => {
                let mut inputs: Vec<SlotValue> = Vec::new();
                inputs.push(SlotValue::Entity(entity));
                inputs.push(SlotValue::Texture(color));
                proof {
                    assert(inputs@ =~= seq![
                        SlotValue::Entity(entity),
                        SlotValue::Texture(color),
                    ]);
                }
                let run = SubGraphRun { sub_graph: "draw_2d".to_string(), inputs };
                r.push(run);
            },
            None => {},
        }
        match camera_3d {
            Some((entity, color, depth)) => {
                let mut inputs: Vec<SlotValue> = Vec::new();
                inputs.push(SlotValue::Entity(entity));
                inputs.push(SlotValue::Texture(color));
                inputs.push(SlotValue::Texture(depth));
                proof {
                    assert(inputs@ =~= seq![
                        SlotValue::Entity(entity),
                        SlotValue::Texture(color),
                        SlotValue::Texture(depth),
                    ]);
                }
                let run = SubGraphRun { sub_graph: "draw_3d".to_string(), inputs };
                r.push(run);
            },
            None => {},
        }
        r
    }
}

} // verus!
