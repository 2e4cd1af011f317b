//! Cells that are written once: a cell that is initialised at most once, and
//! a value that is computed when it is first asked for.

use vstd::prelude::*;

verus! {

/// The cell has no value yet.
pub const UNINIT: u8 = 0;

/// The cell's value is being computed.
pub const RUNNING: u8 = 1;

/// The cell has its value.
pub const INIT: u8 = 2;

/// Why a cell's value could not be read.
#[derive(Debug, Clone, Copy, PartialEq, Eq, Structural)]
pub enum TryGetError {
    /// The cell has no value yet.
    Uninitialized,
}

/// Why a cell could not be initialised.
#[derive(Debug, Clone, Copy, PartialEq, Eq, Structural)]
pub enum TryInitError {
    /// The cell has its value already.
    AlreadyInitialized,
}

/// A cell that is initialised at most once and keeps its value from then on.
pub struct OnceLock<T> {
    inner: Option<T>,
    status: u8,
}

impl<T> OnceLock<T> {
    /// The cell's value, if it has one.
    pub closed spec fn value(&self) -> Option<T> {
        self.inner
    }

    /// The cell's status: [`UNINIT`], [`RUNNING`] or [`INIT`].
    pub closed spec fn status(&self) -> u8 {
        self.status
    }

    /// The status tells whether the value is there, and no computation of
    /// the value is under way.
    pub open spec fn wf(&self) -> bool {
        &&& self.status() == UNINIT || self.status() == INIT
        &&& self.status() == INIT <==> self.value().is_some()
    }

    /// A cell without a value.
    pub fn new() -> (cell: Self)
        ensures
            cell.wf(),
            cell.value().is_none(),
    {
        OnceLock { inner: None, status: UNINIT }
    }

    /// A cell that holds `val` from the start.
    pub fn with_value(val: T) -> (cell: Self)
        ensures
            cell.wf(),
            cell.value() == Some(val),
    {
        OnceLock { inner: Some(val), status: INIT }
    }

    /// Whether the cell has its value.
    pub fn is_init(&self) -> (b: bool)
        requires
            self.wf(),
        ensures
            b == self.value().is_some(),
    {
        self.status == INIT
    }

    /// The value, or `None` while the cell has none.
    pub fn get(&self) -> (r: Option<&T>)
        requires
            self.wf(),
        ensures
            r.is_some() <==> self.value().is_some(),
            r.is_some() ==> *r.unwrap() == self.value().unwrap(),
    {
        if self.is_init() {
            Some(self.get_unchecked())
        } else {
            None
        }
    }

    /// The value, or the error while the cell has none.
    pub fn try_get(&self) -> (r: Result<&T, TryGetError>)
        requires
            self.wf(),
        ensures
            r.is_ok() <==> self.value().is_some(),
            r.is_ok() ==> *r.unwrap() == self.value().unwrap(),
            r.is_err() ==> r == Err::<&T, TryGetError>(TryGetError::Uninitialized),
    {
        if self.is_init() {
            Ok(self.get_unchecked())
        } else {
            Err(TryGetError::Uninitialized)
        }
    }

    /// The value of a cell that has one.
    pub fn get_unchecked(&self) -> (r: &T)
        requires
            self.value().is_some(),
        ensures
            *r == self.value().unwrap(),
    {
        match &self.inner {
            Some(value) => value,
            None => vstd::pervasive::unreached(),
        }
    }

    /// Initialises a cell that has no value: marks the computation as under
    /// way, calls `func` once, stores what it returns and marks the cell as
    /// initialised. A cell that has its value is left alone and `func` is
    /// not called.
    fn try_init_inner<F: FnOnce() -> T>(&mut self, func: F)
        requires
            old(self).wf(),
            func.requires(()),
        ensures
            final(self).wf(),
            final(self).value().is_some(),
            old(self).value().is_some() ==> final(self).value() == old(self).value(),
            old(self).value().is_none() ==> func.ensures((), final(self).value().unwrap()),
    {
        if self.status == UNINIT {
            self.status = RUNNING;
            let value = func();
            self.inner = Some(value);
            self.status = INIT;
        }
    }

    /// Initialises the cell with what `func` returns, unless it has its
    /// value already; then `func` is not called.
    pub fn init_once<F: FnOnce() -> T>(&mut self, func: F)
        requires
            old(self).wf(),
            func.requires(()),
        ensures
            final(self).wf(),
            final(self).value().is_some(),
            old(self).value().is_some() ==> final(self).value() == old(self).value(),
            old(self).value().is_none() ==> func.ensures((), final(self).value().unwrap()),
    {
        if !self.is_init() {
            self.try_init_inner(func);
        }
    }

    /// Initialises the cell with what `func` returns. On a cell that has its
    /// value this is an error: the value stays and `func` is not called.
    pub fn try_init_once<F: FnOnce() -> T>(&mut self, func: F) -> (r: Result<(), TryInitError>)
        requires
            old(self).wf(),
            func.requires(()),
        ensures
            final(self).wf(),
            final(self).value().is_some(),
            r.is_err() <==> old(self).value().is_some(),
            r.is_err() ==> r == Err::<(), TryInitError>(TryInitError::AlreadyInitialized),
            r.is_err() ==> final(self).value() == old(self).value(),
            r.is_ok() ==> func.ensures((), final(self).value().unwrap()),
    {
        if self.is_init() {
            Err(TryInitError::AlreadyInitialized)
        } else {
            self.try_init_inner(func);
            Ok(())
        }
    }

    /// The value, after initialising the cell with what `func` returns if it
    /// had none.
    pub fn get_or_init<F: FnOnce() -> T>(&mut self, func: F) -> (r: &T)
        requires
            old(self).wf(),
            func.requires(()),
        ensures
            final(self).wf(),
            final(self).value() == Some(*r),
            old(self).value().is_some() ==> final(self).value() == old(self).value(),
            old(self).value().is_none() ==> func.ensures((), *r),
    {
        if !self.is_init() {
            self.try_init_inner(func);
        }
        self.get_unchecked()
    }
}

/// A value that is computed by `F` when it is first asked for, and kept.
#[verifier::reject_recursive_types(T)]
pub struct Lazy<T, F: FnOnce() -> T> {
    cell: OnceLock<T>,
    init: Option<F>,
}

impl<T, F: FnOnce() -> T> Lazy<T, F> {
    /// The value, once it has been computed.
    pub closed spec fn value(&self) -> Option<T> {
        self.cell.value()
    }

    /// The function that will compute the value, until it has been called.
    pub closed spec fn initializer(&self) -> Option<F> {
        self.init
    }

    /// Until the value is there, the function that computes it is, and it
    /// can be called.
    pub closed spec fn wf(&self) -> bool {
        &&& self.cell.wf()
        &&& self.cell.value().is_none() ==> self.init.is_some() && self.init.unwrap().requires(())
    }

    /// A value that `init` will compute.
    pub fn new(init: F) -> (lazy: Self)
        requires
            init.requires(()),
        ensures
            lazy.wf(),
            lazy.value().is_none(),
            lazy.initializer() == Some(init),
    {
        Lazy { cell: OnceLock::new(), init: Some(init) }
    }

    /// Whether the value has been computed.
    pub fn is_init(&self) -> (b: bool)
        requires
            self.wf(),
        ensures
            b == self.value().is_some(),
    {
        self.cell.is_init()
    }

    /// The value. The first call computes it; later calls return the same
    /// value and call nothing.
    pub fn get_or_init(&mut self) -> (r: &T)
        requires
            old(self).wf(),
        ensures
            final(self).wf(),
            final(self).value() == Some(*r),
            old(self).value().is_some() ==> final(self).value() == old(self).value()
                && final(self).initializer() == old(self).initializer(),
            old(self).value().is_none() ==> old(self).initializer().unwrap().ensures((), *r)
                && final(self).initializer().is_none(),
    {
        if !self.cell.is_init() {
            match self.init.take() {
                Some(func) => {
                    self.cell.init_once(func);
                },
                None => {
                    vstd::pervasive::unreached::<()>()
                },
            }
        }
        self.cell.get_unchecked()
    }
}

} // verus!
