//! Drawing commands: what an evaluation hands to a renderer.
use crate::number::Number;
use vstd::prelude::*;

verus! {

/// One drawing command, for the turtle that is active when it is drawn.
#[derive(Debug, PartialEq)]
pub enum DrawCmd {
    /// Move forward by a distance.
    Forward(Number),
    /// Move back by a distance.
    Back(Number),
    /// Turn left by an angle in degrees.
    LeftTurn(Number),
    /// Turn right by an angle in degrees.
    RightTurn(Number),
    /// Draw in this color from now on.
    SetColor(String),
    /// Clear the screen.
    ClearScreen,
    /// Lift the pen: moves draw nothing from now on.
    PenUp,
    /// Lower the pen: moves draw from now on.
    PenDown,
    /// Write a text where the turtle stands, along its heading.
    Label(String),
    /// Write labels in this font size from now on.
    SetFontSize(Number),
    /// Make the turtle of this index the active one; it is made on first use.
    SetTurtle(i32),
}

/// The mathematical value of a drawing command.
pub enum Stroke {
    Forward(Number),
    Back(Number),
    LeftTurn(Number),
    RightTurn(Number),
    SetColor(Seq<char>),
    ClearScreen,
    PenUp,
    PenDown,
    Label(Seq<char>),
    SetFontSize(Number),
    SetTurtle(i32),
}

impl View for DrawCmd {
    type V = Stroke;

    open spec fn view(&self) -> Stroke {
        match self {
            DrawCmd::Forward(n) => Stroke::Forward(*n),
            DrawCmd::Back(n) => Stroke::Back(*n),
            DrawCmd::LeftTurn(n) => Stroke::LeftTurn(*n),
            DrawCmd::RightTurn(n) => Stroke::RightTurn(*n),
            DrawCmd::SetColor(s) => Stroke::SetColor(s@),
            DrawCmd::ClearScreen => Stroke::ClearScreen,
            DrawCmd::PenUp => Stroke::PenUp,
            DrawCmd::PenDown => Stroke::PenDown,
            DrawCmd::Label(s) => Stroke::Label(s@),
            DrawCmd::SetFontSize(n) => Stroke::SetFontSize(*n),
            DrawCmd::SetTurtle(i) => Stroke::SetTurtle(*i),
        }
    }
}

/// The values of a list of drawing commands, in order.
pub open spec fn strokes(cmds: Seq<DrawCmd>) -> Seq<Stroke> {
    Seq::new(cmds.len(), |i: int| cmds[i]@)
}

} // verus!
