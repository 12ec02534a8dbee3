//! Types related to event handling and dispatch.

use std::path::PathBuf;

use vstd::prelude::*;

verus! {

#[verifier::external_type_specification]
#[verifier::external_body]
pub struct ExPathBuf(PathBuf);

/// `<PathBuf as Clone>::clone`: the same path, which specifications treat as the same
/// value (as vstd does for a cloned `String`).
#[verifier::external_body]
fn clone_path(p: &PathBuf) -> (r: PathBuf)
    ensures
        r == *p,
{
    p.clone()
}

/// Summary of the results of an event dispatch cycle.
///
/// This is returned to the platform after dispatching events.
#[derive(Debug, Default, Copy, Clone)]
pub struct DispatchInfo {
    /// The total number of callbacks that were executed.
    pub callback_count: u32,
    /// Whether event propagation was stopped by an event handler.
    pub bubbling_stopped: bool,
    /// Whether a request to close the window was intercepted and cancelled by a handler.
    pub stop_window_close: bool,
}

/// The list of events that Nodes can register callbacks for.
#[derive(Clone, Copy, Debug, PartialEq, Eq, Structural)]
pub enum On {
    /// Fired when the accessibility layer requests a semantic action on the node.
    AccessibilityAction,
    /// Fired once per display refresh, unless the node is disabled.
    AnimationFrame,
    /// Fired when a node loses focus.
    Blur,
    /// Fired when a callback requests change propagation, or when a change is queued by
    /// the platform.
    Change,
    /// Fired when an application command is triggered.
    Command,
    /// Fired every time a node is added to the tree, even when it's disabled.
    Create,
    /// Fired every time a node is removed from the tree, even when it's disabled.
    Destroy,
    /// Fired by the platform after a file dialog closes.
    FileDialog,
    /// Fired when a node gains focus.
    Focus,
    /// Fired when a keyboard key is pressed or released.
    Keyboard,
    /// Fired when a pointer button is pressed over the node or a descendant.
    PointerDown,
    /// Fired when the pointer first enters the node or a descendant.
    PointerEnter,
    /// Fired when the pointer leaves the node and all of its descendants.
    PointerLeave,
    /// Fired when the pointer moves inside the node or a descendant.
    PointerMove,
    /// Fired when a pointer button is released over the node or a descendant.
    PointerUp,
    /// Fired when the pointer wheel scrolls over the node or a descendant.
    PointerWheel,
    /// Fired by the platform after a requested delay.
    Timer,
    /// Fired on the root node when the window loses focus.
    WindowBlur,
    /// Fired on the root node when a window close is requested.
    WindowClose,
    /// Fired on the root node when the window gains focus.
    WindowFocus,
}

impl On {
    /// Returns `true` if this event is a pointer event.
    pub fn is_pointer(&self) -> (r: bool)
        ensures
            r == (*self is PointerDown || *self is PointerUp || *self is PointerMove || *self is PointerEnter
                || *self is PointerLeave || *self is PointerWheel),
    {
        match self {
            On::PointerDown | On::PointerUp | On::PointerMove | On::PointerEnter | On::PointerLeave | On::PointerWheel => true,
            _ => false,
        }
    }
}

/// The result of a file dialog interaction.
#[derive(Debug)]
pub enum FileDialogResponse {
    /// The user confirmed an Open operation; holds the selected files or folders.
    Opened(Vec<PathBuf>),
    /// The user confirmed a Save operation; holds the destination path.
    Saved(PathBuf),
    /// The user closed the dialog without confirming.
    Cancelled,
}

impl FileDialogResponse {
    /// Returns the first selected path regardless of whether the dialog was Open or Save.
    pub fn path(&self) -> (r: Option<&PathBuf>)
        ensures
            match self {
                FileDialogResponse::Opened(paths) => if paths@.len() > 0 {
                    r == Some(&paths@[0])
                } else {
                    r is None
                },
                FileDialogResponse::Saved(path) => r == Some(path),
                FileDialogResponse::Cancelled => r is None,
            },
    {
        match self {
            FileDialogResponse::Opened(paths) => {
                if paths.len() > 0 {
                    Some(&paths[0])
                } else {
                    None
                }
            },
            FileDialogResponse::Saved(path) => Some(path),
            FileDialogResponse::Cancelled => None,
        }
    }

    /// Returns all selected paths. If this was a Save dialog, it returns a vec with a single path.
    pub fn paths(&self) -> (r: Vec<PathBuf>)
        ensures
            match self {
                FileDialogResponse::Opened(paths) => r@ == paths@,
                FileDialogResponse::Saved(path) => r@ == seq![*path],
                FileDialogResponse::Cancelled => r@ == Seq::<PathBuf>::empty(),
            },
    {
        match self {
            FileDialogResponse::Opened(paths) => {
                let mut out: Vec<PathBuf> = Vec::new();
                let n = paths.len();
                let mut i: usize = 0;
                while i < n
                    invariant
                        n == paths@.len(),
                        0 <= i <= n,
                        out@ == paths@.take(i as int),
                    decreases n - i,
                {
                    out.push(clone_path(&paths[i]));
                    proof {
                        assert(paths@.take(i + 1) =~= paths@.take(i as int).push(paths@[i as int]));
                    }
                    i += 1;
                }
                proof {
                    assert(paths@.take(n as int) =~= paths@);
                }
                out
            },
            FileDialogResponse::Saved(path) => {
                let mut out: Vec<PathBuf> = Vec::new();
                out.push(clone_path(path));
                proof {
                    assert(out@ =~= seq![*path]);
                }
                out
            },
            FileDialogResponse::Cancelled => Vec::new(),
        }
    }

    /// Returns true if the response came from an Open dialog.
    pub fn is_opened(&self) -> (r: bool)
        ensures
            r == (*self is Opened),
    {
        match self {
            FileDialogResponse::Opened(_) => true,
            _ => false,
        }
    }

    /// Returns true if the response came from a Save dialog.
    pub fn is_saved(&self) -> (r: bool)
        ensures
            r == (*self is Saved),
    {
        match self {
            FileDialogResponse::Saved(_) => true,
            _ => false,
        }
    }

    /// Returns true if the user cancelled the dialog.
    pub fn is_cancelled(&self) -> (r: bool)
        ensures
            r == (*self is Cancelled),
    {
        match self {
            FileDialogResponse::Cancelled => true,
            _ => false,
        }
    }
}

/// An identifier for a command originating in the platform.
///
/// This is typically associated with items in the main menu, context menus, or buttons on
/// modal dialogs.
#[derive(Debug, Clone, Copy, PartialEq, Eq, Structural, Hash)]
pub struct CommandId(pub u32);

impl From<u32> for CommandId {
    fn from(value: u32) -> (r: Self) {
        CommandId(value)
    }
}

impl vstd::std_specs::convert::FromSpecImpl<u32> for CommandId {
    open spec fn obeys_from_spec() -> bool {
        true
    }

    open spec fn from_spec(v: u32) -> CommandId {
        CommandId(v)
    }
}

/// The largest duration, in nanoseconds: `u64::MAX` seconds and 999 999 999 nanoseconds.
pub const MAX_DURATION_NANOS: u128 = 18_446_744_073_709_551_615_999_999_999;

/// Information about how long it took to render the previous frame.
///
/// Event callbacks are not included. Durations are in nanoseconds.
#[derive(Default, Debug, Clone, Copy)]
pub struct PerfInfo {
    /// Number of frames that have been drawn since creating the viewport.
    pub frame_number: u64,
    /// How many nodes are in the tree.
    pub node_count: usize,
    /// How long it took to build the tree last frame.
    pub build_time: u128,
    /// How long it took to apply styles last frame.
    pub style_time: u128,
    /// How long the layout phase took last frame.
    pub layout_time: u128,
    /// Set to `true` if layout needed to be calculated twice last frame.
    pub layout_twice: bool,
    /// How long it took to build the scene last frame.
    pub scene_time: u128,
    /// How long it took to paint the surface last frame, as reported by the platform.
    pub paint_time: u128,
}

impl PerfInfo {
    /// The time spent on the CPU and on painting.
    pub fn total_time(&self) -> (r: u128)
        requires
            self.build_time + self.style_time + self.layout_time + self.scene_time + self.paint_time <= MAX_DURATION_NANOS,
        ensures
            r == self.build_time + self.style_time + self.layout_time + self.scene_time + self.paint_time,
    {
        self.build_time + self.style_time + self.layout_time + self.scene_time + self.paint_time
    }

    /// The time spent building, styling, laying out and building the scene.
    pub fn cpu_time(&self) -> (r: u128)
        requires
            self.build_time + self.style_time + self.layout_time + self.scene_time <= MAX_DURATION_NANOS,
        ensures
            r == self.build_time + self.style_time + self.layout_time + self.scene_time,
    {
        self.build_time + self.style_time + self.layout_time + self.scene_time
    }

    /// The time spent painting.
    pub fn gpu_time(&self) -> (r: u128)
        ensures
            r == self.paint_time,
    {
        self.paint_time
    }
}

} // verus!
