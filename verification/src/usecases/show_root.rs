//! Showing the root directory.

use crate::configs::Config;
use crate::ports::user_interaction::{UiEvent, UserInteraction};
use vstd::prelude::*;

verus! {

/// Shows the user where the repositories are kept.
pub struct ShowRootUseCase<U: UserInteraction> {
    pub ui: U,
}

impl<U: UserInteraction> ShowRootUseCase<U> {
    /// The command on what it needs.
    pub fn new(ui: U) -> (r: Self)
        ensures
            r.ui == ui,
    {
        ShowRootUseCase { ui }
    }

    /// Shows the root directory of `config`.
    pub fn execute(&mut self, config: &Config)
        ensures
            final(self).ui.events() == old(self).ui.events().push(
                UiEvent::Print(config.root@.render()),
            ),
    {
        let text = config.root().display();
        self.ui.print(text.as_str());
    }
}

} // verus!
