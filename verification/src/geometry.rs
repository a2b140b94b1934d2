//! The constructors of the geometry module: which arguments each of them takes, and
//! what they make of them.
//!
//! A constructor takes its arguments in one of a few shapes. The host tells what each
//! argument is; the numbers come and go by their bits, untouched.

use vstd::prelude::*;
use std::rc::Rc;
use crate::text::{push_text, string_of};
use crate::value::{keyed, BuiltinFunction, Value};

verus! {

/// The bits of the double zero.
pub const ZERO: u64 = 0;

/// What the host found an argument to be.
#[derive(Clone, Copy, Debug, PartialEq, Eq, Structural)]
pub enum Argument {
    /// A number.
    Number(u64),
    /// A foreign value that is a vector of two numbers.
    Vec2 { x: u64, y: u64 },
    /// A foreign value that is a vector of three numbers.
    Vec3 { x: u64, y: u64, z: u64 },
    /// Anything else.
    Other,
}

/// A constructor of the module.
#[derive(Clone, Copy, Debug, PartialEq, Eq, Structural)]
pub enum Constructor {
    Rect,
    Vec2,
    Vec3,
}

/// What a constructor makes.
#[derive(Clone, Copy, Debug, PartialEq, Eq, Structural)]
pub enum Shape {
    Rect { x: u64, y: u64, width: u64, height: u64 },
    Vec2 { x: u64, y: u64 },
    Vec3 { x: u64, y: u64, z: u64 },
}

/// The fault of arguments in a shape that the constructor does not take.
#[derive(Clone, Copy, Debug, PartialEq, Eq, Structural)]
pub struct WrongShape {
    /// The constructor that was called.
    pub constructor: Constructor,
}

/// What `rect` makes of its arguments: the rectangle of zeros of none, and of four
/// numbers the rectangle with that corner, width and height.
pub open spec fn rect_of(args: Seq<Argument>) -> Option<Shape> {
    if args.len() == 0 {
        Some(Shape::Rect { x: ZERO, y: ZERO, width: ZERO, height: ZERO })
    } else if args.len() == 4 {
        match (args[0], args[1], args[2], args[3]) {
            (
                Argument::Number(x),
                Argument::Number(y),
                Argument::Number(width),
                Argument::Number(height),
            ) => Some(Shape::Rect { x, y, width, height }),
            _ => None,
        }
    } else {
        None
    }
}

/// What `vec2` makes of its arguments: of up to two numbers the vector with them as
/// its first components and zero for the rest, and of a vector of two a copy.
pub open spec fn vec2_of(args: Seq<Argument>) -> Option<Shape> {
    if args.len() == 0 {
        Some(Shape::Vec2 { x: ZERO, y: ZERO })
    } else if args.len() == 1 {
        match args[0] {
            Argument::Number(x) => Some(Shape::Vec2 { x, y: ZERO }),
            Argument::Vec2 { x, y } => Some(Shape::Vec2 { x, y }),
            _ => None,
        }
    } else if args.len() == 2 {
        match (args[0], args[1]) {
            (Argument::Number(x), Argument::Number(y)) => Some(Shape::Vec2 { x, y }),
            _ => None,
        }
    } else {
        None
    }
}

/// What `vec3` makes of its arguments: of up to three numbers the vector with them as
/// its first components and zero for the rest; of a vector of two, alone or with a
/// number after it, the vector with its two components and zero or that number; and
/// of a vector of three a copy.
pub open spec fn vec3_of(args: Seq<Argument>) -> Option<Shape> {
    if args.len() == 0 {
        Some(Shape::Vec3 { x: ZERO, y: ZERO, z: ZERO })
    } else if args.len() == 1 {
        match args[0] {
            Argument::Number(x) => Some(Shape::Vec3 { x, y: ZERO, z: ZERO }),
            Argument::Vec2 { x, y } => Some(Shape::Vec3 { x, y, z: ZERO }),
            Argument::Vec3 { x, y, z } => Some(Shape::Vec3 { x, y, z }),
            _ => None,
        }
    } else if args.len() == 2 {
        match (args[0], args[1]) {
            (Argument::Number(x), Argument::Number(y)) => Some(Shape::Vec3 { x, y, z: ZERO }),
            (Argument::Vec2 { x, y }, Argument::Number(z)) => Some(Shape::Vec3 { x, y, z }),
            _ => None,
        }
    } else if args.len() == 3 {
        match (args[0], args[1], args[2]) {
            (Argument::Number(x), Argument::Number(y), Argument::Number(z)) => Some(
                Shape::Vec3 { x, y, z },
            ),
            _ => None,
        }
    } else {
        None
    }
}

/// What a constructor makes of its arguments, if it takes them.
pub open spec fn made_of(constructor: Constructor, args: Seq<Argument>) -> Option<Shape> {
    match constructor {
        Constructor::Rect => rect_of(args),
        Constructor::Vec2 => vec2_of(args),
        Constructor::Vec3 => vec3_of(args),
    }
}

impl Constructor {
    /// The name under which the module has the constructor.
    pub open spec fn label(self) -> Seq<char> {
        match self {
            Constructor::Rect => "rect"@,
            Constructor::Vec2 => "vec2"@,
            Constructor::Vec3 => "vec3"@,
        }
    }

    /// The arguments that the constructor takes, in words.
    pub open spec fn takes(self) -> Seq<char> {
        match self {
            Constructor::Rect => "4 Numbers"@,
            Constructor::Vec2 => "up to 2 Numbers"@,
            Constructor::Vec3 => "up to 3 Numbers, a Vec2, or a Vec3"@,
        }
    }

    /// The identity under which the module has the constructor as a function of the
    /// host.
    pub open spec fn identity(self) -> usize {
        match self {
            Constructor::Rect => 0,
            Constructor::Vec2 => 1,
            Constructor::Vec3 => 2,
        }
    }

    /// The name under which the module has the constructor.
    pub fn name(self) -> (out: &'static str)
        ensures
            out@ == self.label(),
    {
        match self {
            Constructor::Rect => "rect",
            Constructor::Vec2 => "vec2",
            Constructor::Vec3 => "vec3",
        }
    }

    /// The arguments that the constructor takes, in words.
    pub fn expected(self) -> (out: &'static str)
        ensures
            out@ == self.takes(),
    {
        match self {
            Constructor::Rect => "4 Numbers",
            Constructor::Vec2 => "up to 2 Numbers",
            Constructor::Vec3 => "up to 3 Numbers, a Vec2, or a Vec3",
        }
    }

    /// The constructor that the module has under an identity.
    pub fn from_identity(identity: usize) -> (out: Option<Constructor>)
        ensures
            match out {
                Some(constructor) => constructor.identity() == identity,
                None => identity > 2,
            },
    {
        if identity == 0 {
            Some(Constructor::Rect)
        } else if identity == 1 {
            Some(Constructor::Vec2)
        } else if identity == 2 {
            Some(Constructor::Vec3)
        } else {
            None
        }
    }
}

/// Makes a rectangle of the arguments.
pub fn rect(args: &[Argument]) -> (out: Result<Shape, WrongShape>)
    ensures
        match rect_of(args@) {
            Some(shape) => out == Ok::<Shape, WrongShape>(shape),
            None => out == Err::<Shape, WrongShape>(
                (WrongShape { constructor: Constructor::Rect }),
            ),
        },
{
    let wrong = Err(WrongShape { constructor: Constructor::Rect });
    if args.len() == 0 {
        Ok(Shape::Rect { x: ZERO, y: ZERO, width: ZERO, height: ZERO })
    } else if args.len() == 4 {
        match (args[0], args[1], args[2], args[3]) {
            (
                Argument::Number(x),
                Argument::Number(y),
                Argument::Number(width),
                Argument::Number(height),
            ) => Ok(Shape::Rect { x, y, width, height }),
            _ => wrong,
        }
    } else {
        wrong
    }
}

/// Makes a vector of two numbers of the arguments.
pub fn vec2(args: &[Argument]) -> (out: Result<Shape, WrongShape>)
    ensures
        match vec2_of(args@) {
            Some(shape) => out == Ok::<Shape, WrongShape>(shape),
            None => out == Err::<Shape, WrongShape>(
                (WrongShape { constructor: Constructor::Vec2 }),
            ),
        },
{
    let wrong = Err(WrongShape { constructor: Constructor::Vec2 });
    if args.len() == 0 {
        Ok(Shape::Vec2 { x: ZERO, y: ZERO })
    } else if args.len() == 1 {
        match args[0] {
            Argument::Number(x) => Ok(Shape::Vec2 { x, y: ZERO }),
            Argument::Vec2 { x, y } => Ok(Shape::Vec2 { x, y }),
            _ => wrong,
        }
    } else if args.len() == 2 {
        match (args[0], args[1]) {
            (Argument::Number(x), Argument::Number(y)) => Ok(Shape::Vec2 { x, y }),
            _ => wrong,
        }
    } else {
        wrong
    }
}

/// Makes a vector of three numbers of the arguments.
pub fn vec3(args: &[Argument]) -> (out: Result<Shape, WrongShape>)
    ensures
        match vec3_of(args@) {
            Some(shape) => out == Ok::<Shape, WrongShape>(shape),
            None => out == Err::<Shape, WrongShape>(
                (WrongShape { constructor: Constructor::Vec3 }),
            ),
        },
{
    let wrong = Err(WrongShape { constructor: Constructor::Vec3 });
    if args.len() == 0 {
        Ok(Shape::Vec3 { x: ZERO, y: ZERO, z: ZERO })
    } else if args.len() == 1 {
        match args[0] {
            Argument::Number(x) => Ok(Shape::Vec3 { x, y: ZERO, z: ZERO }),
            Argument::Vec2 { x, y } => Ok(Shape::Vec3 { x, y, z: ZERO }),
            Argument::Vec3 { x, y, z } => Ok(Shape::Vec3 { x, y, z }),
            _ => wrong,
        }
    } else if args.len() == 2 {
        match (args[0], args[1]) {
            (Argument::Number(x), Argument::Number(y)) => Ok(Shape::Vec3 { x, y, z: ZERO }),
            (Argument::Vec2 { x, y }, Argument::Number(z)) => Ok(Shape::Vec3 { x, y, z }),
            _ => wrong,
        }
    } else if args.len() == 3 {
        match (args[0], args[1], args[2]) {
            (Argument::Number(x), Argument::Number(y), Argument::Number(z)) => Ok(
                Shape::Vec3 { x, y, z },
            ),
            _ => wrong,
        }
    } else {
        wrong
    }
}

/// Calls a constructor on the arguments.
pub fn construct(constructor: Constructor, args: &[Argument]) -> (out: Result<Shape, WrongShape>)
    ensures
        match made_of(constructor, args@) {
            Some(shape) => out == Ok::<Shape, WrongShape>(shape),
            None => out == Err::<Shape, WrongShape>((WrongShape { constructor })),
        },
{
    match constructor {
        Constructor::Rect => rect(args),
        Constructor::Vec2 => vec2(args),
        Constructor::Vec3 => vec3(args),
    }
}

/// Whether a value is the entry of the module for a constructor: the function of the
/// host with the identity of the constructor, which is no instance function.
pub open spec fn is_entry_for<F>(entry: (String, Value<F>), constructor: Constructor) -> bool {
    &&& entry.0@ == constructor.label()
    &&& entry.1 == Value::<F>::BuiltinFunction(
        BuiltinFunction { function: constructor.identity(), is_instance_function: false },
    )
}

/// The module: a map with the constructors `rect`, `vec2` and `vec3`.
pub fn make_module<F>() -> (out: Value<F>)
    ensures
        out matches Value::Mapping(entries) && {
            &&& entries@.len() == 3
            &&& is_entry_for(entries@[0], Constructor::Rect)
            &&& is_entry_for(entries@[1], Constructor::Vec2)
            &&& is_entry_for(entries@[2], Constructor::Vec3)
        },
        keyed(out),
{
    let mut entries: Vec<(String, Value<F>)> = Vec::new();
    entries.push(("rect".to_owned(), Value::BuiltinFunction(BuiltinFunction::new(0, false))));
    entries.push(("vec2".to_owned(), Value::BuiltinFunction(BuiltinFunction::new(1, false))));
    entries.push(("vec3".to_owned(), Value::BuiltinFunction(BuiltinFunction::new(2, false))));
    proof {
        reveal_strlit("rect");
        reveal_strlit("vec2");
        reveal_strlit("vec3");
        assert("rect"@[0] != "vec2"@[0]);
        assert("rect"@[0] != "vec3"@[0]);
        assert("vec2"@[3] != "vec3"@[3]);
        assert forall|i: int| 0 <= i < entries@.len() implies keyed((#[trigger] entries@[i]).1) by {}
    }
    Value::Mapping(Rc::new(entries))
}

/// The names of some arguments, a comma and a space between one and the next.
pub open spec fn joined_names(names: Seq<String>, n: nat) -> Seq<char>
    decreases n,
{
    if n == 0 || n > names.len() {
        Seq::empty()
    } else if n == 1 {
        names[0]@
    } else {
        joined_names(names, (n - 1) as nat) + ", "@ + names[n - 1]@
    }
}

/// The text of the fault: the arguments that the constructor takes, and the kinds of
/// the arguments that it was given.
pub open spec fn wrong_shape_text(constructor: Constructor, received: Seq<String>) -> Seq<char> {
    "Expected "@ + constructor.takes() + ", but found ("@ + joined_names(
        received,
        received.len(),
    ) + ")"@
}

impl WrongShape {
    /// The text of the fault, given the names of the kinds of the arguments.
    pub fn message(&self, received: &[String]) -> (out: String)
        ensures
            out@ == wrong_shape_text(self.constructor, received@),
    {
        let mut out: Vec<char> = Vec::new();
        push_text(&mut out, "Expected ");
        push_text(&mut out, self.constructor.expected());
        push_text(&mut out, ", but found (");
        let ghost start = out@;
        let mut i: usize = 0;
        assert(out@ =~= start + joined_names(received@, 0));
        while i < received.len()
            invariant
                i <= received.len(),
                out@ == start + joined_names(received@, i as nat),
            decreases received.len() - i,
        {
            if i > 0 {
                push_text(&mut out, ", ");
            }
            push_text(&mut out, received[i].as_str());
            i += 1;
            assert(out@ =~= start + joined_names(received@, i as nat));
        }
        push_text(&mut out, ")");
        assert(out@ =~= wrong_shape_text(self.constructor, received@));
        string_of(&out)
    }
}

} // verus!
