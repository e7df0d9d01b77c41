//! Which page of the application is shown.

use vstd::prelude::*;

verus! {

/// A page of the application.
#[derive(Debug, Clone, Copy, PartialEq, Eq, Structural)]
pub enum Route {
    /// The list of the servers.
    Home,
    /// The keys and the value of one server.
    Editor,
}

impl Default for Route {
    fn default() -> (r: Route)
        ensures
            r == Route::Home,
    {
        Route::Home
    }
}

/// The state of the application.
#[derive(Debug, Clone, Copy, PartialEq, Eq, Structural)]
pub struct ZedisAppState {
    route: Route,
}

impl ZedisAppState {
    /// The page that is shown.
    pub closed spec fn shown(self) -> Route {
        self.route
    }

    /// The state at the start: the list of the servers is shown.
    pub fn new() -> (r: ZedisAppState)
        ensures
            r.shown() == Route::Home,
    {
        ZedisAppState { route: Route::Home }
    }

    /// The page that is shown.
    pub fn route(&self) -> (r: Route)
        ensures
            r == self.shown(),
    {
        self.route
    }

    /// Shows `route`. Returns whether that is another page than before, so
    /// that the observers have something to read again.
    pub fn go_to(&mut self, route: Route) -> (changed: bool)
        ensures
            final(self).shown() == route,
            changed == (old(self).shown() != route),
    {
        if self.route == route {
            false
        } else {
            self.route = route;
            true
        }
    }
}

} // verus!
