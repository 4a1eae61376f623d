//! Encoded command fragments, as produced by an IMAP command encoder.

use vstd::prelude::*;

verus! {

/// How a literal is announced on the wire.
#[derive(Clone, Copy, Debug, PartialEq, Eq, Structural)]
pub enum LiteralMode {
    /// A synchronizing literal, `{<n>}\r\n<data>`: the server has to send a
    /// continuation request before the data may follow.
    Sync,
    /// A non-synchronizing literal, `{<n>+}\r\n<data>` (LITERAL+).
    NonSync,
}

/// One piece of an encoded command.
#[derive(Debug)]
pub enum Fragment {
    /// A line that may be sent as it is.
    Line { data: Vec<u8> },
    /// The data of a literal; its announcement ends the preceding line.
    Literal { data: Vec<u8>, mode: LiteralMode },
}

/// The mathematical value of a [`Fragment`].
pub enum FragmentView {
    Line(Seq<u8>),
    Literal(Seq<u8>, LiteralMode),
}

impl View for Fragment {
    type V = FragmentView;

    open spec fn view(&self) -> FragmentView {
        match self {
            Fragment::Line { data } => FragmentView::Line(data@),
            Fragment::Literal { data, mode } => FragmentView::Literal(data@, *mode),
        }
    }
}

/// The views of a sequence of fragments.
pub open spec fn fragments_view(frags: Seq<Fragment>) -> Seq<FragmentView> {
    frags.map_values(|f: Fragment| f@)
}

} // verus!
