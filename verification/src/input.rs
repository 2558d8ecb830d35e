//! The input plugin: which event queues an application gets for input.

use vstd::prelude::*;

verus! {

/// A kind of input event that is delivered through a queue of its own.
#[derive(Clone, Copy, Debug, PartialEq, Eq, Structural)]
pub enum InputEvent {
    Keyboard,
    MouseButton,
    MouseMotion,
}

/// Registers the queues for keyboard and mouse input with an application.
/// The animation engine does not read them.
#[derive(Clone, Copy, Debug)]
pub struct InputPlugin;

impl InputPlugin {
    /// The queues to register, in the order of registration.
    pub open spec fn spec_events() -> Seq<InputEvent> {
        seq![InputEvent::Keyboard, InputEvent::MouseButton, InputEvent::MouseMotion]
    }

    /// The queues that building the plugin registers, in order.
    pub fn events(&self) -> (kinds: Vec<InputEvent>)
        ensures
            kinds@ == InputPlugin::spec_events(),
    {
        let mut kinds: Vec<InputEvent> = Vec::new();
        kinds.push(InputEvent::Keyboard);
        kinds.push(InputEvent::MouseButton);
        kinds.push(InputEvent::MouseMotion);
        kinds
    }
}

impl Default for InputPlugin {
    fn default() -> (plugin: InputPlugin)
        ensures
            plugin == InputPlugin,
    {
        InputPlugin
    }
}

} // verus!
