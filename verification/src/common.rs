//! Shared traits of the viewer's parts, the persisted display settings, and
//! bookkeeping for named resources.

use vstd::prelude::*;
use std::collections::HashMap;

verus! {

/// A part that consumes an input event or value and adjusts its own state.
pub trait Update {
    type Input;

    fn update(&mut self, input: Self::Input);
}

/// A part whose state can be persisted under a name.  Saving and loading
/// are left to the host application; by default nothing is stored.
pub trait Store {
    fn name() -> String;

    fn save(&self) {
    }

    fn load(&self) {
    }
}

/// Display and event-loop settings of the viewer window.
#[derive(Clone, Debug)]
pub struct Settings {
    pub fullscreen: bool,
    pub vsync: bool,
    pub capture: bool,
    pub esc_exit: bool,
    pub transparent: bool,
    pub ups: u64,
    pub fps: u64,
    pub samples: u8,
}

impl Default for Settings {
    /// The stock settings: windowed, no vsync, exit on escape, transparent
    /// background, 30 updates and 60 frames per second, 16 samples.
    fn default() -> (s: Self)
        ensures
            s == (Settings {
                fullscreen: false,
                vsync: false,
                capture: false,
                esc_exit: true,
                transparent: true,
                ups: 30u64,
                fps: 60u64,
                samples: 16u8,
            }),
    {
        let ups: u64 = 30;
        let fps: u64 = if ups * 2 > 60 {
            ups * 2
        } else {
            60
        };
        Settings {
            fullscreen: false,
            vsync: false,
            capture: false,
            esc_exit: true,
            transparent: true,
            ups,
            fps,
            samples: 16,
        }
    }
}

impl Store for Settings {
    fn name() -> (r: String)
        ensures
            r@ == "Settings"@,
    {
        "Settings".to_owned()
    }
}

/// One named resource on disk.
#[derive(Clone, Debug)]
pub struct Resource {
    id: u32,
    path: String,
}

/// Resources grouped under a name.
#[derive(Clone, Debug)]
pub struct ResourceManager {
    res: HashMap<String, Vec<Resource>>,
}

} // verus!
