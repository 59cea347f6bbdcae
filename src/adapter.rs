//! A uniform handle on the output adapters (speaker, UDP, HTTP) that consume
//! buffer streams.
use vstd::prelude::*;
use std::sync::atomic::{AtomicBool, Ordering};
use std::sync::{Arc, Mutex};

verus! {

#[verifier::external_type_specification]
#[verifier::external_body]
#[verifier::reject_recursive_types(T)]
pub struct ExMutex<T: ?Sized>(Mutex<T>);

/// Relies on `Mutex::lock`: a copy of the status text that the adapter's
/// thread last wrote. A lock poisoned by a panicking writer still yields it.
#[verifier::external_body]
fn read_status(status: &Mutex<String>) -> String {
    match status.lock() {
        Ok(guard) => guard.clone(),
        Err(poisoned) => poisoned.into_inner().clone(),
    }
}

/// One adapter: its id and kind, its status text and the flag that tells
/// its thread to stop.
#[derive(Clone)]
pub struct AdapterHandle {
    id: String,
    is_closed: Arc<AtomicBool>,
    status: Arc<Mutex<String>>,
    kind: String,
}

impl AdapterHandle {
    pub closed spec fn id_view(&self) -> Seq<char> {
        self.id@
    }

    pub closed spec fn kind_view(&self) -> Seq<char> {
        self.kind@
    }

    pub fn new(id: String, kind: String, status: Arc<Mutex<String>>, is_closed: Arc<AtomicBool>) -> (r:
        Self)
        ensures
            r.id_view() == id@,
            r.kind_view() == kind@,
    {
        AdapterHandle { id, is_closed, kind, status }
    }

    /// Tells the adapter's thread to stop.
    pub fn close(&mut self)
        ensures
            final(self).id_view() == old(self).id_view(),
            final(self).kind_view() == old(self).kind_view(),
    {
        self.is_closed.store(true, Ordering::Relaxed);
    }

    pub fn id(&self) -> (r: &str)
        ensures
            r@ == self.id_view(),
    {
        self.id.as_str()
    }

    /// The adapter's status text as its thread last set it.
    pub fn status(&self) -> String {
        read_status(&self.status)
    }

    pub fn kind(&self) -> (r: &str)
        ensures
            r@ == self.kind_view(),
    {
        self.kind.as_str()
    }

    /// Whether the adapter was told to stop, by this handle or a clone of it.
    pub fn is_closed(&self) -> bool {
        self.is_closed.load(Ordering::Relaxed)
    }
}

} // verus!
