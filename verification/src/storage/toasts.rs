//! Notices for the user that disappear by themselves.

use vstd::prelude::*;

verus! {

/// How a notice is shown.
#[derive(Clone, Copy, Debug, PartialEq, Eq, Structural)]
pub enum ToastKind {
    Error,
    Info,
}

/// A notice and the number of seconds for which it is shown.
pub struct Toast {
    pub kind: ToastKind,
    pub message: String,
    pub duration_seconds: u64,
}

/// What a notice says.
pub struct ToastView {
    pub kind: ToastKind,
    pub message: Seq<char>,
    pub duration_seconds: u64,
}

impl View for Toast {
    type V = ToastView;

    open spec fn view(&self) -> ToastView {
        ToastView {
            kind: self.kind,
            message: self.message@,
            duration_seconds: self.duration_seconds,
        }
    }
}

/// The notices of a list, each by its view.
pub open spec fn toast_views(toasts: Seq<Toast>) -> Seq<ToastView> {
    Seq::new(toasts.len(), |i: int| toasts[i]@)
}

/// The notices that wait to be shown, oldest first.
pub struct ToastsManager {
    pending: Vec<Toast>,
}

impl View for ToastsManager {
    type V = Seq<ToastView>;

    closed spec fn view(&self) -> Seq<ToastView> {
        toast_views(self.pending@)
    }
}

impl ToastsManager {
    pub fn new() -> (m: ToastsManager)
        ensures
            m@ == Seq::<ToastView>::empty(),
    {
        let m = ToastsManager { pending: Vec::new() };
        assert(m@ =~= Seq::<ToastView>::empty());
        m
    }

    fn show(&mut self, kind: ToastKind, message: String, duration_seconds: usize)
        ensures
            final(self)@ == old(self)@.push(
                ToastView { kind, message: message@, duration_seconds: duration_seconds as u64 },
            ),
    {
        self.pending.push(Toast { kind, message, duration_seconds: duration_seconds as u64 });
        assert(self@ =~= old(self)@.push(
            ToastView { kind, message: message@, duration_seconds: duration_seconds as u64 },
        ));
    }

    /// Queues an error notice.
    pub fn show_err(&mut self, message: String, duration_seconds: usize)
        ensures
            final(self)@ == old(self)@.push(
                ToastView {
                    kind: ToastKind::Error,
                    message: message@,
                    duration_seconds: duration_seconds as u64,
                },
            ),
    {
        self.show(ToastKind::Error, message, duration_seconds);
    }

    /// Queues an informational notice.
    pub fn show_info(&mut self, message: String, duration_seconds: usize)
        ensures
            final(self)@ == old(self)@.push(
                ToastView {
                    kind: ToastKind::Info,
                    message: message@,
                    duration_seconds: duration_seconds as u64,
                },
            ),
    {
        self.show(ToastKind::Info, message, duration_seconds);
    }

    /// The number of notices that wait.
    pub fn pending_count(&self) -> (n: usize)
        ensures
            n == self@.len(),
    {
        self.pending.len()
    }

    /// Hands out the waiting notices, oldest first, and forgets them.
    pub fn take_pending(&mut self) -> (toasts: Vec<Toast>)
        ensures
            toast_views(toasts@) == old(self)@,
            final(self)@ == Seq::<ToastView>::empty(),
    {
        let mut toasts: Vec<Toast> = Vec::new();
        std::mem::swap(&mut toasts, &mut self.pending);
        assert(self@ =~= Seq::<ToastView>::empty());
        toasts
    }
}

} // verus!
