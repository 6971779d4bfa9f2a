//! What the program can be told to do.
use crate::model::texts;
use vstd::prelude::*;

verus! {

/// The commands of the program.
#[derive(Debug, Clone, PartialEq, Eq)]
pub enum Commands {
    /// Bring the installed packages in line with the declared ones.
    Build {
        /// Also update the packages that are installed already.
        update: bool,
    },
    /// Bring them in line and install anew what is installed already.
    Rebuild,
    /// Update installed packages: the named ones, or all of them.
    Update { packages: Option<Vec<String>> },
    /// Show installed packages: the named ones, or all of them.
    Info { package: Option<Vec<String>> },
    /// Make the installed packages available on the load path.
    Link,
    /// Delete logs and working directories.
    Clean,
    /// Show the manual.
    Docs,
}

/// A parsed command line.
#[derive(Debug, Clone, PartialEq, Eq)]
pub struct Cli {
    pub command: Commands,
}

pub enum CommandsView {
    Build { update: bool },
    Rebuild,
    Update { packages: Option<Seq<Seq<char>>> },
    Info { package: Option<Seq<Seq<char>>> },
    Link,
    Clean,
    Docs,
}

impl View for Commands {
    type V = CommandsView;

    open spec fn view(&self) -> CommandsView {
        match self {
            Commands::Build { update } => CommandsView::Build { update: *update },
            Commands::Rebuild => CommandsView::Rebuild,
            Commands::Update { packages } => CommandsView::Update {
                packages: match packages {
                    Some(names) => Some(texts(names@)),
                    None => None,
                },
            },
            Commands::Info { package } => CommandsView::Info {
                package: match package {
                    Some(names) => Some(texts(names@)),
                    None => None,
                },
            },
            Commands::Link => CommandsView::Link,
            Commands::Clean => CommandsView::Clean,
            Commands::Docs => CommandsView::Docs,
        }
    }
}

} // verus!
