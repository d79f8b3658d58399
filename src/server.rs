use vstd::prelude::*;

use crate::data::DataSource;

verus! {

#[verifier::external_type_specification]
#[verifier::external_body]
#[verifier::reject_recursive_types(T)]
pub struct ExMutex<T: ?Sized>(std::sync::Mutex<T>);

/// Relies on `std::sync::Mutex::new`: wraps the value in an unlocked mutex.
pub assume_specification<T>[ std::sync::Mutex::<T>::new ](t: T) -> std::sync::Mutex<T>;

/// The state shared by the request handlers: the backend, behind a lock.
#[verifier::reject_recursive_types(D)]
pub struct AppState<D> {
    pub data_source: std::sync::Mutex<D>,
}

/// Where and over what backend an HTTP server answers requests.
#[verifier::reject_recursive_types(D)]
pub struct DataSourceHTTPServer<D> {
    pub port: u16,
    pub host: String,
    pub state: AppState<D>,
}

impl<D: DataSource> DataSourceHTTPServer<D> {
    pub fn new(port: u16, host: String, state: D) -> (r: DataSourceHTTPServer<D>)
        ensures
            r.port == port,
            r.host == host,
    {
        DataSourceHTTPServer { port, host, state: AppState { data_source: std::sync::Mutex::new(state) } }
    }
}

} // verus!
