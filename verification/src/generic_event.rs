use vstd::prelude::*;

verus! {

/// The kind tag of the release view. Kind tags are unique and stable per
/// semantic view, so extraction is an exact tag match.
pub const RELEASE_KIND: u64 = 1;

/// The kind tag of the resize view.
pub const RESIZE_KIND: u64 = 2;

/// The opaque payload a raw event carries on behalf of a semantic view.
pub enum EventArgs {
    /// A button value, the payload of the release view.
    Button(u64),
    /// A width and a height, the payload of the resize view.
    Size(u32, u32),
}

/// Whether `args` has the payload shape that the view tagged `kind`
/// carries.
pub open spec fn args_match_kind(kind: u64, args: EventArgs) -> bool {
    match args {
        EventArgs::Button(_) => kind == RELEASE_KIND,
        EventArgs::Size(_, _) => kind == RESIZE_KIND,
    }
}

/// The generic extraction entry points every concrete raw-event
/// representation implements once; each semantic view is then layered
/// over them without the representation knowing the view in advance.
///
/// A representation describes itself through three spec functions: which
/// view kinds it supports at all, and which kind tag and payload one of
/// its values currently carries.
pub trait GenericEvent: Sized {
    /// Whether this representation supports the view tagged `kind`.
    spec fn supported(kind: u64) -> bool;

    /// The kind tag this event value carries.
    spec fn kind_of(self) -> u64;

    /// The payload this event value carries.
    spec fn args_of(self) -> EventArgs;

    /// Wraps `args` as an event tagged `kind`; `None` (never a fault)
    /// when this representation does not support that view.
    fn from_event(kind: u64, args: EventArgs) -> (r: Option<Self>)
        requires
            args_match_kind(kind, args),
        ensures
            Self::supported(kind) ==> (r matches Some(e) && e.kind_of() == kind && e.args_of()
                == args),
            !Self::supported(kind) ==> r is None,
    ;

    /// Hands out the payload when this event is tagged exactly `kind`;
    /// `None` when it carries a different kind's payload.
    fn with_event(&self, kind: u64) -> (r: Option<EventArgs>)
        ensures
            self.kind_of() == kind ==> r == Some(self.args_of()),
            self.kind_of() != kind ==> r is None,
    ;
}

/// A concrete raw-event representation that supports both bundled views.
pub enum InputEvent {
    /// The release of a button.
    Release(u64),
    /// A window resize to a width and a height.
    Resize(u32, u32),
}

impl GenericEvent for InputEvent {
    open spec fn supported(kind: u64) -> bool {
        kind == RELEASE_KIND || kind == RESIZE_KIND
    }

    open spec fn kind_of(self) -> u64 {
        match self {
            InputEvent::Release(_) => RELEASE_KIND,
            InputEvent::Resize(_, _) => RESIZE_KIND,
        }
    }

    open spec fn args_of(self) -> EventArgs {
        match self {
            InputEvent::Release(b) => EventArgs::Button(b),
            InputEvent::Resize(w, h) => EventArgs::Size(w, h),
        }
    }

    fn from_event(kind: u64, args: EventArgs) -> (r: Option<InputEvent>) {
        match args {
            EventArgs::Button(b) => Some(InputEvent::Release(b)),
            EventArgs::Size(w, h) => Some(InputEvent::Resize(w, h)),
        }
    }

    fn with_event(&self, kind: u64) -> (r: Option<EventArgs>) {
        match self {
            InputEvent::Release(b) => if kind == RELEASE_KIND {
                Some(EventArgs::Button(*b))
            } else {
                None
            },
            InputEvent::Resize(w, h) => if kind == RESIZE_KIND {
                Some(EventArgs::Size(*w, *h))
            } else {
                None
            },
        }
    }
}

/// A concrete raw-event representation that only knows buttons: asked
/// for any other view, construction and extraction answer `None`.
pub struct KeyboardEvent {
    /// The button this event releases.
    pub button: u64,
}

impl GenericEvent for KeyboardEvent {
    open spec fn supported(kind: u64) -> bool {
        kind == RELEASE_KIND
    }

    open spec fn kind_of(self) -> u64 {
        RELEASE_KIND
    }

    open spec fn args_of(self) -> EventArgs {
        EventArgs::Button(self.button)
    }

    fn from_event(kind: u64, args: EventArgs) -> (r: Option<KeyboardEvent>) {
        match args {
            EventArgs::Button(b) => Some(KeyboardEvent { button: b }),
            EventArgs::Size(_, _) => None,
        }
    }

    fn with_event(&self, kind: u64) -> (r: Option<EventArgs>) {
        if kind == RELEASE_KIND {
            Some(EventArgs::Button(self.button))
        } else {
            None
        }
    }
}

} // verus!
