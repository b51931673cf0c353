use vstd::prelude::*;

use crate::application::app::App;

verus! {

/// A modular piece of functionality that can be added to an [`App`].
///
/// Plugins encapsulate setup logic (registering systems, inserting
/// resources) so that features are self-contained and composable.
/// Whatever `build` does to the app, the app stays well formed and the
/// plugin types recorded as installed stay recorded: every public
/// operation of the app and of its world and schedule keeps both.
pub trait Plugin<V, S>: Sized + 'static {
    /// Called once when the plugin is added to the app.
    fn build(&self, app: &mut App<V, S>)
        requires
            old(app).wf(),
        ensures
            final(app).wf(),
            old(app).installed().subset_of(final(app).installed()),
    ;
}

} // verus!
