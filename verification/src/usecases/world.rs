//! What a command can change: the file system, the calls made to git, and
//! what the user was shown.

use crate::errors::GrmError;
use crate::ports::file_system::FsModel;
use crate::ports::git_repository::GitCall;
use crate::path::{path_views, FsPath, PathModel};
use crate::ports::user_interaction::{UiEvent, UserInteraction};
use crate::text::concat;
use vstd::prelude::*;
use vstd::string::*;

verus! {

/// The state that the commands speak of.
pub struct World {
    /// The file system.
    pub fs: FsModel,
    /// The calls made to git, oldest first.
    pub calls: Seq<GitCall>,
    /// What the user was shown and asked, oldest first.
    pub events: Seq<UiEvent>,
}

impl World {
    /// The same world after one more call to git.
    pub open spec fn called(self, call: GitCall) -> World {
        World { fs: self.fs, calls: self.calls.push(call), events: self.events }
    }

    /// The same world after the user was shown `text`.
    pub open spec fn shown(self, text: Seq<char>) -> World {
        World { fs: self.fs, calls: self.calls, events: self.events.push(UiEvent::Print(text)) }
    }

    /// The same world after the user was shown each of `lines`.
    pub open spec fn shown_all(self, lines: Seq<Seq<char>>) -> World {
        World { fs: self.fs, calls: self.calls, events: self.events + prints(lines) }
    }

    /// The same world after the user was asked `text`.
    pub open spec fn asked(self, text: Seq<char>) -> World {
        World { fs: self.fs, calls: self.calls, events: self.events.push(UiEvent::Confirm(text)) }
    }

    /// The same world with another file system.
    pub open spec fn with_fs(self, fs: FsModel) -> World {
        World { fs, calls: self.calls, events: self.events }
    }
}

/// The events of showing each of `lines`.
pub open spec fn prints(lines: Seq<Seq<char>>) -> Seq<UiEvent> {
    lines.map_values(|l: Seq<char>| UiEvent::Print(l))
}

/// The text of each of `paths` behind `lead`.
pub open spec fn labelled(lead: Seq<char>, paths: Seq<PathModel>) -> Seq<Seq<char>> {
    paths.map_values(|p: PathModel| lead + p.render())
}

/// What the answer to a question means for a command: after a yes it goes on,
/// a no ends it as cancelled by the user, and a failure to ask ends it as it is.
pub fn go_ahead(answer: Result<bool, GrmError>) -> (r: Result<(), GrmError>)
    ensures
        match answer {
            Ok(yes) => if yes {
                r is Ok
            } else {
                r matches Err(GrmError::UserCancelled)
            },
            Err(e) => r == Err::<(), GrmError>(e),
        },
{
    match answer {
        Ok(true) => Ok(()),
        Ok(false) => Err(GrmError::UserCancelled),
        Err(e) => Err(e),
    }
}

/// Shows the user each of `paths`, one to a line, behind `lead`.
pub fn show_each<U: UserInteraction>(ui: &mut U, lead: &str, paths: &Vec<FsPath>)
    ensures
        final(ui).events() == old(ui).events() + prints(labelled(lead@, path_views(paths@))),
        final(ui).next_answer() == old(ui).next_answer(),
{
    let ghost lines = labelled(lead@, path_views(paths@));
    let mut i: usize = 0;
    assert(old(ui).events() + prints(lines.take(0)) =~= old(ui).events());
    while i < paths.len()
        invariant
            i <= paths.len(),
            lines == labelled(lead@, path_views(paths@)),
            lines.len() == paths.len(),
            ui.events() == old(ui).events() + prints(lines.take(i as int)),
            ui.next_answer() == old(ui).next_answer(),
        decreases paths.len() - i,
    {
        let line = concat(lead, paths[i].display().as_str());
        proof {
            assert(line@ == lines[i as int]);
            assert(prints(lines.take(i + 1)) =~= prints(lines.take(i as int)).push(
                UiEvent::Print(lines[i as int]),
            ));
            assert(old(ui).events() + prints(lines.take(i as int)).push(
                UiEvent::Print(lines[i as int]),
            ) =~= (old(ui).events() + prints(lines.take(i as int))).push(
                UiEvent::Print(lines[i as int]),
            ));
        }
        ui.print(line.as_str());
        i = i + 1;
    }
    assert(lines.take(lines.len() as int) =~= lines);
}

} // verus!
