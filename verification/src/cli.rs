//! The commands of the command line and what each of them reports.

use vstd::prelude::*;

verus! {

/// A command of the command line.
#[derive(Clone, Copy, Debug, PartialEq, Eq, Structural)]
pub enum Subcommand {
    Info,
    InitSchema,
    InitDocuments,
    InitPdfDocuments,
    QueryDocuments,
    QueryPdfDocuments,
}

/// What the command line does for its first argument.
#[derive(Clone, Copy, Debug, PartialEq, Eq, Structural)]
pub enum CliAction {
    /// Run the command.
    Run(Subcommand),
    /// No command, or none that is known: show the help text.
    PrintHelp,
}

/// The name of the program.
pub const PROGRAM: &'static str = "rigrag";

/// The version of the program.
pub const VERSION: &'static str = "1.0";

/// What the program is.
pub const ABOUT: &'static str = "Rig Rag Rust PoC CLI";

impl Subcommand {
    /// The name under which the command is called.
    pub open spec fn spec_name(self) -> Seq<char> {
        match self {
            Subcommand::Info => "info"@,
            Subcommand::InitSchema => "init-schema"@,
            Subcommand::InitDocuments => "init-documents"@,
            Subcommand::InitPdfDocuments => "init-pdf-documents"@,
            Subcommand::QueryDocuments => "query-documents"@,
            Subcommand::QueryPdfDocuments => "query-pdf-documents"@,
        }
    }

    /// What the help text says of the command.
    pub open spec fn spec_about(self) -> Seq<char> {
        match self {
            Subcommand::Info => "Knowledge base info"@,
            Subcommand::InitSchema => "Init vectorDB Schema"@,
            Subcommand::InitDocuments => "Init sample documents"@,
            Subcommand::InitPdfDocuments => "Init PDF sample documents"@,
            Subcommand::QueryDocuments => "Query knowledge base sample documents"@,
            Subcommand::QueryPdfDocuments => "Query knowledge base PDF documents"@,
        }
    }

    /// What is logged when the command has succeeded.
    pub open spec fn spec_finished(self) -> Seq<char> {
        match self {
            Subcommand::Info => "Finished knowledge base info"@,
            Subcommand::InitSchema => "Finished vectorDB schema initialization"@,
            Subcommand::InitDocuments => "Finished sample documents initialization"@,
            Subcommand::InitPdfDocuments => "Finished PDF sample documents initialization"@,
            Subcommand::QueryDocuments => "Finished query knowledge base sample documents"@,
            Subcommand::QueryPdfDocuments => "Finished query knowledge base pdf documents"@,
        }
    }

    /// The command that is called `name`, if there is one.
    pub open spec fn spec_parse(name: Seq<char>) -> Option<Subcommand> {
        if name == "info"@ {
            Some(Subcommand::Info)
        } else if name == "init-schema"@ {
            Some(Subcommand::InitSchema)
        } else if name == "init-documents"@ {
            Some(Subcommand::InitDocuments)
        } else if name == "init-pdf-documents"@ {
            Some(Subcommand::InitPdfDocuments)
        } else if name == "query-documents"@ {
            Some(Subcommand::QueryDocuments)
        } else if name == "query-pdf-documents"@ {
            Some(Subcommand::QueryPdfDocuments)
        } else {
            None
        }
    }

    /// All commands, in the order of the help text.
    pub fn all() -> (r: Vec<Subcommand>)
        ensures
            r@ == seq![
                Subcommand::Info,
                Subcommand::InitSchema,
                Subcommand::InitDocuments,
                Subcommand::InitPdfDocuments,
                Subcommand::QueryDocuments,
                Subcommand::QueryPdfDocuments,
            ],
    {
        let mut out: Vec<Subcommand> = Vec::new();
        out.push(Subcommand::Info);
        out.push(Subcommand::InitSchema);
        out.push(Subcommand::InitDocuments);
        out.push(Subcommand::InitPdfDocuments);
        out.push(Subcommand::QueryDocuments);
        out.push(Subcommand::QueryPdfDocuments);
        assert(out@ =~= seq![
            Subcommand::Info,
            Subcommand::InitSchema,
            Subcommand::InitDocuments,
            Subcommand::InitPdfDocuments,
            Subcommand::QueryDocuments,
            Subcommand::QueryPdfDocuments,
        ]);
        out
    }

    /// The name under which the command is called.
    pub fn name(&self) -> (r: &'static str)
        ensures
            r@ == self.spec_name(),
    {
        match self {
            Subcommand::Info => "info",
            Subcommand::InitSchema => "init-schema",
            Subcommand::InitDocuments => "init-documents",
            Subcommand::InitPdfDocuments => "init-pdf-documents",
            Subcommand::QueryDocuments => "query-documents",
            Subcommand::QueryPdfDocuments => "query-pdf-documents",
        }
    }

    /// What the help text says of the command.
    pub fn about(&self) -> (r: &'static str)
        ensures
            r@ == self.spec_about(),
    {
        match self {
            Subcommand::Info => "Knowledge base info",
            Subcommand::InitSchema => "Init vectorDB Schema",
            Subcommand::InitDocuments => "Init sample documents",
            Subcommand::InitPdfDocuments => "Init PDF sample documents",
            Subcommand::QueryDocuments => "Query knowledge base sample documents",
            Subcommand::QueryPdfDocuments => "Query knowledge base PDF documents",
        }
    }

    /// What is logged when the command has succeeded.
    pub fn finished(&self) -> (r: &'static str)
        ensures
            r@ == self.spec_finished(),
    {
        match self {
            Subcommand::Info => "Finished knowledge base info",
            Subcommand::InitSchema => "Finished vectorDB schema initialization",
            Subcommand::InitDocuments => "Finished sample documents initialization",
            Subcommand::InitPdfDocuments => "Finished PDF sample documents initialization",
            Subcommand::QueryDocuments => "Finished query knowledge base sample documents",
            Subcommand::QueryPdfDocuments => "Finished query knowledge base pdf documents",
        }
    }

    /// The command that is called `name`, if there is one.
    pub fn parse(name: &str) -> (r: Option<Subcommand>)
        ensures
            r == Subcommand::spec_parse(name@),
    {
        let key = name.to_string();
        if key == "info".to_string() {
            Some(Subcommand::Info)
        } else if key == "init-schema".to_string() {
            Some(Subcommand::InitSchema)
        } else if key == "init-documents".to_string() {
            Some(Subcommand::InitDocuments)
        } else if key == "init-pdf-documents".to_string() {
            Some(Subcommand::InitPdfDocuments)
        } else if key == "query-documents".to_string() {
            Some(Subcommand::QueryDocuments)
        } else if key == "query-pdf-documents".to_string() {
            Some(Subcommand::QueryPdfDocuments)
        } else {
            None
        }
    }
}

/// Every command is found under its own name: no two names are alike.
pub proof fn lemma_parse_name(command: Subcommand)
    ensures
        Subcommand::spec_parse(command.spec_name()) == Some(command),
{
    reveal_strlit("info");
    reveal_strlit("init-schema");
    reveal_strlit("init-documents");
    reveal_strlit("init-pdf-documents");
    reveal_strlit("query-documents");
    reveal_strlit("query-pdf-documents");
    assert("info"@.len() == 4);
    assert("init-schema"@.len() == 11);
    assert("init-documents"@.len() == 14);
    assert("init-pdf-documents"@.len() == 18);
    assert("query-documents"@.len() == 15);
    assert("query-pdf-documents"@.len() == 19);
}

/// The command line.
pub struct Cli {}

impl Cli {
    /// Decides what to do for the command that was given: a known
    /// command is run, and anything else, or nothing, shows the help.
    pub fn run(subcommand: Option<&str>) -> (r: CliAction)
        ensures
            r == match subcommand {
                Some(name) => match Subcommand::spec_parse(name@) {
                    Some(command) => CliAction::Run(command),
                    None => CliAction::PrintHelp,
                },
                None => CliAction::PrintHelp,
            },
    {
        match subcommand {
            Some(name) => match Subcommand::parse(name) {
                Some(command) => CliAction::Run(command),
                None => CliAction::PrintHelp,
            },
            None => CliAction::PrintHelp,
        }
    }
}

} // verus!
