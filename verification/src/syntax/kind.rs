use vstd::prelude::*;

verus! {

/// The kinds of syntax nodes that the editor tells apart; every other kind of
/// the Typst grammar is `Other`, with its code.
#[derive(Debug, Clone, Copy, PartialEq, Eq, Structural)]
pub enum NodeKind {
    Error,
    Shebang,
    LineComment,
    BlockComment,
    Markup,
    Text,
    Space,
    Label,
    Heading,
    Equation,
    Math,
    MathText,
    MathIdent,
    MathDelimited,
    MathAttach,
    MathFrac,
    MathRoot,
    LeftBrace,
    RightBrace,
    LeftBracket,
    RightBracket,
    LeftParen,
    RightParen,
    Comma,
    Semicolon,
    Underscore,
    Dollar,
    Slash,
    Hat,
    Root,
    Ident,
    Code,
    CodeBlock,
    FuncCall,
    Args,
    LetBinding,
    SetRule,
    ShowRule,
    Contextual,
    ModuleImport,
    ModuleInclude,
    Other(u8),
}

impl NodeKind {
    /// The kind for a Typst syntax-kind code (the position of the kind in
    /// Typst's `SyntaxKind` enumeration).
    pub fn from_code(code: u8) -> (k: NodeKind)
        ensures
            k == NodeKind::spec_from_code(code),
    {
        match code {
            1 => NodeKind::Error,
            2 => NodeKind::Shebang,
            3 => NodeKind::LineComment,
            4 => NodeKind::BlockComment,
            5 => NodeKind::Markup,
            6 => NodeKind::Text,
            7 => NodeKind::Space,
            20 => NodeKind::Label,
            23 => NodeKind::Heading,
            31 => NodeKind::Equation,
            32 => NodeKind::Math,
            33 => NodeKind::MathText,
            34 => NodeKind::MathIdent,
            37 => NodeKind::MathDelimited,
            38 => NodeKind::MathAttach,
            40 => NodeKind::MathFrac,
            41 => NodeKind::MathRoot,
            43 => NodeKind::LeftBrace,
            44 => NodeKind::RightBrace,
            45 => NodeKind::LeftBracket,
            46 => NodeKind::RightBracket,
            47 => NodeKind::LeftParen,
            48 => NodeKind::RightParen,
            49 => NodeKind::Comma,
            50 => NodeKind::Semicolon,
            53 => NodeKind::Underscore,
            54 => NodeKind::Dollar,
            57 => NodeKind::Slash,
            58 => NodeKind::Hat,
            74 => NodeKind::Root,
            95 => NodeKind::Code,
            96 => NodeKind::Ident,
            102 => NodeKind::CodeBlock,
            112 => NodeKind::FuncCall,
            113 => NodeKind::Args,
            117 => NodeKind::LetBinding,
            118 => NodeKind::SetRule,
            119 => NodeKind::ShowRule,
            120 => NodeKind::Contextual,
            124 => NodeKind::ModuleImport,
            128 => NodeKind::ModuleInclude,
            _ => NodeKind::Other(code),
        }
    }

    /// The kind for a Typst syntax-kind code.
    pub open spec fn spec_from_code(code: u8) -> NodeKind {
        if code == 1 { NodeKind::Error }
        else if code == 2 { NodeKind::Shebang }
        else if code == 3 { NodeKind::LineComment }
        else if code == 4 { NodeKind::BlockComment }
        else if code == 5 { NodeKind::Markup }
        else if code == 6 { NodeKind::Text }
        else if code == 7 { NodeKind::Space }
        else if code == 20 { NodeKind::Label }
        else if code == 23 { NodeKind::Heading }
        else if code == 31 { NodeKind::Equation }
        else if code == 32 { NodeKind::Math }
        else if code == 33 { NodeKind::MathText }
        else if code == 34 { NodeKind::MathIdent }
        else if code == 37 { NodeKind::MathDelimited }
        else if code == 38 { NodeKind::MathAttach }
        else if code == 40 { NodeKind::MathFrac }
        else if code == 41 { NodeKind::MathRoot }
        else if code == 43 { NodeKind::LeftBrace }
        else if code == 44 { NodeKind::RightBrace }
        else if code == 45 { NodeKind::LeftBracket }
        else if code == 46 { NodeKind::RightBracket }
        else if code == 47 { NodeKind::LeftParen }
        else if code == 48 { NodeKind::RightParen }
        else if code == 49 { NodeKind::Comma }
        else if code == 50 { NodeKind::Semicolon }
        else if code == 53 { NodeKind::Underscore }
        else if code == 54 { NodeKind::Dollar }
        else if code == 57 { NodeKind::Slash }
        else if code == 58 { NodeKind::Hat }
        else if code == 74 { NodeKind::Root }
        else if code == 95 { NodeKind::Code }
        else if code == 96 { NodeKind::Ident }
        else if code == 102 { NodeKind::CodeBlock }
        else if code == 112 { NodeKind::FuncCall }
        else if code == 113 { NodeKind::Args }
        else if code == 117 { NodeKind::LetBinding }
        else if code == 118 { NodeKind::SetRule }
        else if code == 119 { NodeKind::ShowRule }
        else if code == 120 { NodeKind::Contextual }
        else if code == 124 { NodeKind::ModuleImport }
        else if code == 128 { NodeKind::ModuleInclude }
        else { NodeKind::Other(code) }
    }

    /// Trivia: whitespace and comments, which sibling and leaf navigation skip.
    pub open spec fn spec_is_trivia(self) -> bool {
        self == NodeKind::Shebang || self == NodeKind::LineComment || self == NodeKind::BlockComment
            || self == NodeKind::Space
    }

    /// Whether the kind is trivia.
    pub fn is_trivia(self) -> (r: bool)
        ensures
            r == self.spec_is_trivia(),
    {
        self == NodeKind::Shebang || self == NodeKind::LineComment || self == NodeKind::BlockComment
            || self == NodeKind::Space
    }
}

} // verus!
