use vstd::prelude::*;

verus! {

/// The brightest of the three channels.
pub open spec fn max3(r: int, g: int, b: int) -> int {
    if r >= g && r >= b {
        r
    } else if g >= b {
        g
    } else {
        b
    }
}

/// One command for one light: its entity, the color, and a brightness equal
/// to the largest channel of that color.
pub struct HASSApiBody {
    pub entity_id: String,
    pub rgb_color: [u32; 3],
    pub brightness: u32,
}

impl HASSApiBody {
    /// The command that sets `entity_id` to `color`, at the brightness of
    /// its largest channel.
    pub fn for_color(entity_id: String, color: (u32, u32, u32)) -> (r: HASSApiBody)
        ensures
            r.entity_id@ == entity_id@,
            r.rgb_color@ == seq![color.0, color.1, color.2],
            r.brightness as int == max3(color.0 as int, color.1 as int, color.2 as int),
    {
        let brightness = if color.0 >= color.1 && color.0 >= color.2 {
            color.0
        } else if color.1 >= color.2 {
            color.1
        } else {
            color.2
        };
        let rgb_color = [color.0, color.1, color.2];
        assert(rgb_color@ =~= seq![color.0, color.1, color.2]);
        HASSApiBody { entity_id, rgb_color, brightness }
    }
}

} // verus!
