use vstd::prelude::*;
use crate::text::{str_equal, string_push_str, io_error_text};

verus! {

/// `std::io::Error`, carried through unread.
#[verifier::external_type_specification]
#[verifier::external_body]
pub struct ExIoError(std::io::Error);

/// The steps of compilation, in order; the compiler can stop after any.
#[derive(Debug, Clone, Copy, PartialEq, Eq, Structural, PartialOrd, Ord)]
pub enum StopAfter {
    Preprocessing,
    Lexing,
    Parsing,
    Sem,
    IrGen,
}

/// Where a step comes in the order of compilation.
pub open spec fn step_rank(s: StopAfter) -> nat {
    match s {
        StopAfter::Preprocessing => 0,
        StopAfter::Lexing => 1,
        StopAfter::Parsing => 2,
        StopAfter::Sem => 3,
        StopAfter::IrGen => 4,
    }
}

impl StopAfter {
    pub fn rank(&self) -> (r: u8)
        ensures
            r == step_rank(*self),
    {
        match self {
            StopAfter::Preprocessing => 0,
            StopAfter::Lexing => 1,
            StopAfter::Parsing => 2,
            StopAfter::Sem => 3,
            StopAfter::IrGen => 4,
        }
    }

    /// Whether this step comes before `other`.
    pub fn is_before(&self, other: &StopAfter) -> (r: bool)
        ensures
            r == (step_rank(*self) < step_rank(*other)),
    {
        self.rank() < other.rank()
    }
}

/// Which intermediate outputs to print, each to standard output (inner
/// `None`) or to a file.
#[derive(Debug)]
pub struct PrintCalls {
    pub preprocessed: Option<Option<String>>,
    pub tokens: Option<Option<String>>,
    pub ast: Option<Option<String>>,
    pub types: Option<Option<String>>,
    pub ir: Option<Option<String>>,
    pub assembly: Option<Option<String>>,
}

/// A request for intermediate output.
#[derive(Debug)]
pub enum Printer {
    Print(PrintCalls),
}

impl Printer {
    pub fn to_print_calls(&self) -> (r: &PrintCalls)
        ensures
            *self == Printer::Print(*r),
    {
        match self {
            Printer::Print(calls) => calls,
        }
    }
}

/// The command line.
#[derive(Debug)]
pub struct Cli {
    /// Path to the source file
    pub filename: String,
    /// The step to stop after
    pub stop_after: StopAfter,
    /// The name of the binary output
    pub out: String,
    pub verbose: bool,
    pub print: Option<Printer>,
}

pub open spec fn default_out() -> Seq<char> {
    "a.out"@
}

/// The intermediate outputs that can be printed.
#[derive(Debug, Clone, Copy, PartialEq, Eq, Structural)]
pub enum PrintedOutput {
    Preprocessed,
    Tokens,
    Ast,
    Types,
    Ir,
    Assembly,
}

/// What a command line deserves a warning for: an output name that will
/// not be used, or a requested output of a step that will not be reached.
#[derive(Debug, Clone, Copy, PartialEq, Eq, Structural)]
pub enum CliWarning {
    OutIgnored,
    PrintIgnored(PrintedOutput),
}

/// The warnings that a command line deserves, in order.
pub open spec fn cli_warnings(cli: Cli) -> Seq<CliWarning> {
    let out_warning: Seq<CliWarning> = if cli.stop_after != StopAfter::IrGen && cli.out@ != default_out() {
        seq![CliWarning::OutIgnored]
    } else {
        seq![]
    };
    let stop = step_rank(cli.stop_after);
    let print_warnings: Seq<CliWarning> = match cli.print {
        Some(Printer::Print(calls)) => {
            (if stop < 1 && calls.tokens is Some {
                seq![CliWarning::PrintIgnored(PrintedOutput::Tokens)]
            } else { seq![] }) + (if stop < 2 && calls.ast is Some {
                seq![CliWarning::PrintIgnored(PrintedOutput::Ast)]
            } else { seq![] }) + (if stop < 3 && calls.types is Some {
                seq![CliWarning::PrintIgnored(PrintedOutput::Types)]
            } else { seq![] }) + (if stop < 4 && calls.ir is Some {
                seq![CliWarning::PrintIgnored(PrintedOutput::Ir)]
            } else { seq![] }) + (if stop < 4 && calls.assembly is Some {
                seq![CliWarning::PrintIgnored(PrintedOutput::Assembly)]
            } else { seq![] })
        },
        None => seq![],
    };
    out_warning + print_warnings
}

impl Cli {
    /// The warnings for this command line (the check that the source file
    /// exists is left to the caller).
    pub fn validation_warnings(&self) -> (r: Vec<CliWarning>)
        ensures
            r@ == cli_warnings(*self),
    {
        let mut r: Vec<CliWarning> = Vec::new();
        let stop = self.stop_after.rank();
        if stop != 4 && !str_equal(self.out.as_str(), "a.out") {
            r.push(CliWarning::OutIgnored);
        }
        if let Some(Printer::Print(calls)) = &self.print {
            if stop < 1 && calls.tokens.is_some() {
                r.push(CliWarning::PrintIgnored(PrintedOutput::Tokens));
            }
            if stop < 2 && calls.ast.is_some() {
                r.push(CliWarning::PrintIgnored(PrintedOutput::Ast));
            }
            if stop < 3 && calls.types.is_some() {
                r.push(CliWarning::PrintIgnored(PrintedOutput::Types));
            }
            if stop < 4 && calls.ir.is_some() {
                r.push(CliWarning::PrintIgnored(PrintedOutput::Ir));
            }
            if stop < 4 && calls.assembly.is_some() {
                r.push(CliWarning::PrintIgnored(PrintedOutput::Assembly));
            }
        }
        proof {
            assert(r@ =~= cli_warnings(*self));
        }
        r
    }
}

/// Where an intermediate output goes.
#[derive(Debug)]
pub enum OutTarget {
    Stdout,
    File(String),
}

impl PrintCalls {
    /// Where a requested output goes: nowhere when not requested, to
    /// standard output when requested without a file, else to the file.
    pub fn out_target_helper(p: &Option<Option<String>>) -> (r: Option<OutTarget>)
        ensures
            r == target_of(*p),
    {
        match p {
            None => None,
            Some(None) => Some(OutTarget::Stdout),
            Some(Some(path)) => Some(OutTarget::File(path.clone())),
        }
    }
}

/// Where each intermediate output goes, for an optional print request.
pub trait PrintWriterHelpers {
    fn get_preprocessor_writer(&self) -> Option<OutTarget>;
    fn get_token_writer(&self) -> Option<OutTarget>;
    fn get_ast_writer(&self) -> Option<OutTarget>;
    fn get_types_writer(&self) -> Option<OutTarget>;
    fn get_ir_writer(&self) -> Option<OutTarget>;
    fn get_assembly_writer(&self) -> Option<OutTarget>;
}

/// Where the output asked for by `field` goes, when printing was requested.
pub open spec fn target_of(field: Option<Option<String>>) -> Option<OutTarget> {
    match field {
        None => None,
        Some(None) => Some(OutTarget::Stdout),
        Some(Some(path)) => Some(OutTarget::File(path)),
    }
}

impl PrintWriterHelpers for Option<Printer> {
    fn get_preprocessor_writer(&self) -> (r: Option<OutTarget>)
        ensures
            r == match self { Some(Printer::Print(c)) => target_of(c.preprocessed), None => None },
    {
        match self {
            Some(p) => PrintCalls::out_target_helper(&p.to_print_calls().preprocessed),
            None => None,
        }
    }

    fn get_token_writer(&self) -> (r: Option<OutTarget>)
        ensures
            r == match self { Some(Printer::Print(c)) => target_of(c.tokens), None => None },
    {
        match self {
            Some(p) => PrintCalls::out_target_helper(&p.to_print_calls().tokens),
            None => None,
        }
    }

    fn get_ast_writer(&self) -> (r: Option<OutTarget>)
        ensures
            r == match self { Some(Printer::Print(c)) => target_of(c.ast), None => None },
    {
        match self {
            Some(p) => PrintCalls::out_target_helper(&p.to_print_calls().ast),
            None => None,
        }
    }

    fn get_types_writer(&self) -> (r: Option<OutTarget>)
        ensures
            r == match self { Some(Printer::Print(c)) => target_of(c.types), None => None },
    {
        match self {
            Some(p) => PrintCalls::out_target_helper(&p.to_print_calls().types),
            None => None,
        }
    }

    fn get_ir_writer(&self) -> (r: Option<OutTarget>)
        ensures
            r == match self { Some(Printer::Print(c)) => target_of(c.ir), None => None },
    {
        match self {
            Some(p) => PrintCalls::out_target_helper(&p.to_print_calls().ir),
            None => None,
        }
    }

    fn get_assembly_writer(&self) -> (r: Option<OutTarget>)
        ensures
            r == match self { Some(Printer::Print(c)) => target_of(c.assembly), None => None },
    {
        match self {
            Some(p) => PrintCalls::out_target_helper(&p.to_print_calls().assembly),
            None => None,
        }
    }
}

/// What can go wrong on the command line's side: opening an output file.
#[derive(Debug)]
pub enum CliErr {
    IO(std::io::Error),
}

impl CliErr {
    /// How the error reads: `IO error: ` and the system's description of
    /// it.
    pub fn message(&self) -> (r: String)
        ensures
            exists|t: Seq<char>| r@ == "IO error: "@ + t,
    {
        let mut s = String::new();
        match self {
            CliErr::IO(e) => {
                string_push_str(&mut s, "IO error: ");
                let t = io_error_text(e);
                string_push_str(&mut s, t.as_str());
            },
        }
        s
    }
}

/// How a warning reads.
pub open spec fn warning_text(w: CliWarning) -> Seq<char> {
    match w {
        CliWarning::OutIgnored => "no executable produced when --stop-after is not 'ir-gen'"@,
        CliWarning::PrintIgnored(PrintedOutput::Tokens) => "Warning: will stop before producing tokens, print --tokens ignored"@,
        CliWarning::PrintIgnored(PrintedOutput::Ast) => "Warning: will stop before producing AST, print --ast ignored"@,
        CliWarning::PrintIgnored(PrintedOutput::Types) => "Warning: will stop before semantic analysis, print --types ignored"@,
        CliWarning::PrintIgnored(PrintedOutput::Ir) => "Warning: will stop before producing IR, print --ir ignored"@,
        CliWarning::PrintIgnored(PrintedOutput::Assembly) => "Warning: will stop before producing IR, print --asm ignored"@,
        CliWarning::PrintIgnored(PrintedOutput::Preprocessed) => Seq::empty(),
    }
}

impl CliWarning {
    /// How the warning reads.
    pub fn message(&self) -> (r: &'static str)
        ensures
            r@ == warning_text(*self),
    {
        match self {
            CliWarning::OutIgnored => "no executable produced when --stop-after is not 'ir-gen'",
            CliWarning::PrintIgnored(PrintedOutput::Tokens) => "Warning: will stop before producing tokens, print --tokens ignored",
            CliWarning::PrintIgnored(PrintedOutput::Ast) => "Warning: will stop before producing AST, print --ast ignored",
            CliWarning::PrintIgnored(PrintedOutput::Types) => "Warning: will stop before semantic analysis, print --types ignored",
            CliWarning::PrintIgnored(PrintedOutput::Ir) => "Warning: will stop before producing IR, print --ir ignored",
            CliWarning::PrintIgnored(PrintedOutput::Assembly) => "Warning: will stop before producing IR, print --asm ignored",
            CliWarning::PrintIgnored(PrintedOutput::Preprocessed) => {
                proof {
                    reveal_strlit("");
                }
                ""
            },
        }
    }
}

} // verus!
