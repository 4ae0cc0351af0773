use vstd::prelude::*;

verus! {

/// The error of the inner step of [`foo`].
#[derive(Debug, Clone, Copy, PartialEq, Eq, Structural)]
pub enum BarError {
    SimpleError,
}

/// The error of [`foo`]: its own failure, or the inner step's error passed
/// through unchanged.
#[derive(Debug, Clone, Copy, PartialEq, Eq, Structural)]
pub enum FooError {
    SimpleError,
    BarError(BarError),
}

/// What a `BarError` reads as.
pub open spec fn bar_error_text(e: BarError) -> Seq<char> {
    match e {
        BarError::SimpleError => "Bar error"@,
    }
}

/// What a `FooError` reads as; the wrapped inner error reads as itself.
pub open spec fn foo_error_text(e: FooError) -> Seq<char> {
    match e {
        FooError::SimpleError => "Foo error"@,
        FooError::BarError(inner) => bar_error_text(inner),
    }
}

impl BarError {
    /// The text of the error.
    pub fn message(&self) -> (s: &'static str)
        ensures
            s@ == bar_error_text(*self),
    {
        match self {
            BarError::SimpleError => "Bar error",
        }
    }
}

impl FooError {
    /// The text of the error; a wrapped inner error is shown as it is.
    pub fn message(&self) -> (s: &'static str)
        ensures
            s@ == foo_error_text(*self),
    {
        match self {
            FooError::SimpleError => "Foo error",
            FooError::BarError(inner) => inner.message(),
        }
    }
}

/// The inner step: it always fails.
pub fn bar() -> (r: Result<(), BarError>)
    ensures
        r == Err::<(), BarError>(BarError::SimpleError),
{
    Err(BarError::SimpleError)
}

/// Runs the inner step and then fails with its own error. The inner step
/// always fails, so its error, wrapped, is what comes back.
pub fn foo() -> (r: Result<(), FooError>)
    ensures
        r == Err::<(), FooError>(FooError::BarError(BarError::SimpleError)),
{
    match bar() {
        Err(e) => return Err(FooError::BarError(e)),
        Ok(()) => {},
    }
    Err(FooError::SimpleError)
}

} // verus!
