//! The rule-language tokenizer: a deterministic automaton over the characters
//! of a rule string.
//!
//! The automaton is stated once as a spec function (`step`, `finish`,
//! `lex_from`), and the executable `Tokenizer` is proved to follow it exactly.
use vstd::prelude::*;
use vstd::string::*;

verus! {

/// One lexical unit of a rule string.
#[derive(Debug, PartialEq, Eq, Clone)]
pub enum Token {
    Comma,
    Space,
    End,
    Number { value: usize },
    String { value: String },
    PatternMatch,
    LowerCase,
    UpperCase,
    TitleCase,
    SentenceCase,
    CamelCaseJoin,
    CamelCaseSplit,
    ExtensionAdd,
    ExtensionRemove,
    Insert,
    InteractiveTokenize,
    InteractivePatternMatch,
    Delete,
    Replace,
    ReplaceSpaceDash,
    ReplaceSpacePeriod,
    ReplaceSpaceUnder,
    ReplaceDashSpace,
    ReplaceDashPeriod,
    ReplaceDashUnder,
    ReplacePeriodDash,
    ReplacePeriodSpace,
    ReplacePeriodUnder,
    ReplaceUnderSpace,
    ReplaceUnderDash,
    ReplaceUnderPeriod,
    Sanitize,
}

/// A token as specifications see it: a quoted string by its characters, every
/// other token as itself.
pub enum Lexeme {
    Quoted(Seq<char>),
    Plain(Token),
}

impl View for Token {
    type V = Lexeme;

    open spec fn view(&self) -> Lexeme {
        match self {
            Token::String { value } => Lexeme::Quoted(value@),
            _ => Lexeme::Plain(*self),
        }
    }
}

/// The lexemes of a token sequence.
pub open spec fn lexemes(tokens: Seq<Token>) -> Seq<Lexeme> {
    tokens.map_values(|t: Token| t@)
}

/// Why a rule string could not be tokenized.
#[derive(Debug, PartialEq, Eq, Clone, Copy)]
pub enum LexError {
    /// A character that continues no token of the state that was open.
    UnexpectedChar { found: char },
    /// The input ended inside a quoted string.
    UnterminatedString,
    /// A digit run whose value does not fit in `usize`.
    InvalidNumber,
    /// The input ended after a prefix that is not itself a keyword.
    UnfinishedKeyword,
}

/// The states of the automaton. Besides the five modes, each state named by
/// letters has read exactly that keyword prefix.
#[derive(Debug, PartialEq, Eq, Clone, Copy, Structural)]
pub enum TokenizerState {
    Init,
    Comma,
    Space,
    String,
    Number,
    C,
    CC,
    CCJ,
    CCS,
    D,
    DP,
    DS,
    DU,
    E,
    EA,
    ER,
    EN,
    END,
    I,
    IP,
    IT,
    L,
    LC,
    P,
    PD,
    PS,
    PU,
    R,
    S,
    SC,
    SP,
    SD,
    SU,
    T,
    TC,
    U,
    UC,
    UD,
    UP,
    US,
}

/// The automaton's configuration: its state, the characters of the quoted
/// string being read, and the value of the digit run being read.
pub struct LexerModel {
    pub state: TokenizerState,
    pub text: Seq<char>,
    pub number: usize,
}

pub open spec fn model(state: TokenizerState, text: Seq<char>, number: usize) -> LexerModel {
    LexerModel { state, text, number }
}

pub open spec fn initial_model() -> LexerModel {
    model(TokenizerState::Init, seq![], 0)
}

pub open spec fn is_digit(c: char) -> bool {
    '0' <= c <= '9'
}

pub open spec fn digit_value(c: char) -> int {
    c as int - '0' as int
}

pub open spec fn is_separator_char(c: char) -> bool {
    c == ',' || c == ' '
}

/// The keyword state entered by the first letter of a keyword.
pub open spec fn keyword_start(c: char) -> Option<TokenizerState> {
    if c == 'c' {
        Some(TokenizerState::C)
    } else if c == 'd' {
        Some(TokenizerState::D)
    } else if c == 'e' {
        Some(TokenizerState::E)
    } else if c == 'i' {
        Some(TokenizerState::I)
    } else if c == 'l' {
        Some(TokenizerState::L)
    } else if c == 'p' {
        Some(TokenizerState::P)
    } else if c == 'r' {
        Some(TokenizerState::R)
    } else if c == 's' {
        Some(TokenizerState::S)
    } else if c == 't' {
        Some(TokenizerState::T)
    } else if c == 'u' {
        Some(TokenizerState::U)
    } else {
        None
    }
}

/// The keyword state reached from keyword state `s` by the letter `c`, if any
/// keyword continues that way.
pub open spec fn keyword_next(s: TokenizerState, c: char) -> Option<TokenizerState> {
    match s {
        TokenizerState::C => if c == 'c' { Some(TokenizerState::CC) } else { None },
        TokenizerState::CC => if c == 'j' {
            Some(TokenizerState::CCJ)
        } else if c == 's' {
            Some(TokenizerState::CCS)
        } else {
            None
        },
        TokenizerState::D => if c == 'p' {
            Some(TokenizerState::DP)
        } else if c == 's' {
            Some(TokenizerState::DS)
        } else if c == 'u' {
            Some(TokenizerState::DU)
        } else {
            None
        },
        TokenizerState::E => if c == 'a' {
            Some(TokenizerState::EA)
        } else if c == 'r' {
            Some(TokenizerState::ER)
        } else if c == 'n' {
            Some(TokenizerState::EN)
        } else {
            None
        },
        TokenizerState::EN => if c == 'd' { Some(TokenizerState::END) } else { None },
        TokenizerState::I => if c == 'p' {
            Some(TokenizerState::IP)
        } else if c == 't' {
            Some(TokenizerState::IT)
        } else {
            None
        },
        TokenizerState::L => if c == 'c' { Some(TokenizerState::LC) } else { None },
        TokenizerState::P => if c == 's' {
            Some(TokenizerState::PS)
        } else if c == 'd' {
            Some(TokenizerState::PD)
        } else if c == 'u' {
            Some(TokenizerState::PU)
        } else {
            None
        },
        TokenizerState::S => if c == 'c' {
            Some(TokenizerState::SC)
        } else if c == 'p' {
            Some(TokenizerState::SP)
        } else if c == 'd' {
            Some(TokenizerState::SD)
        } else if c == 'u' {
            Some(TokenizerState::SU)
        } else {
            None
        },
        TokenizerState::T => if c == 'c' { Some(TokenizerState::TC) } else { None },
        TokenizerState::U => if c == 'c' {
            Some(TokenizerState::UC)
        } else if c == 'd' {
            Some(TokenizerState::UD)
        } else if c == 'p' {
            Some(TokenizerState::UP)
        } else if c == 's' {
            Some(TokenizerState::US)
        } else {
            None
        },
        _ => None,
    }
}

/// The keyword that state `s` has read in full, if it has.
pub open spec fn keyword_token(s: TokenizerState) -> Option<Token> {
    match s {
        TokenizerState::CCJ => Some(Token::CamelCaseJoin),
        TokenizerState::CCS => Some(Token::CamelCaseSplit),
        TokenizerState::D => Some(Token::Delete),
        TokenizerState::DP => Some(Token::ReplaceDashPeriod),
        TokenizerState::DS => Some(Token::ReplaceDashSpace),
        TokenizerState::DU => Some(Token::ReplaceDashUnder),
        TokenizerState::EA => Some(Token::ExtensionAdd),
        TokenizerState::ER => Some(Token::ExtensionRemove),
        TokenizerState::END => Some(Token::End),
        TokenizerState::I => Some(Token::Insert),
        TokenizerState::IP => Some(Token::InteractivePatternMatch),
        TokenizerState::IT => Some(Token::InteractiveTokenize),
        TokenizerState::LC => Some(Token::LowerCase),
        TokenizerState::P => Some(Token::PatternMatch),
        TokenizerState::PD => Some(Token::ReplacePeriodDash),
        TokenizerState::PS => Some(Token::ReplacePeriodSpace),
        TokenizerState::PU => Some(Token::ReplacePeriodUnder),
        TokenizerState::R => Some(Token::Replace),
        TokenizerState::S => Some(Token::Sanitize),
        TokenizerState::SC => Some(Token::SentenceCase),
        TokenizerState::SP => Some(Token::ReplaceSpacePeriod),
        TokenizerState::SD => Some(Token::ReplaceSpaceDash),
        TokenizerState::SU => Some(Token::ReplaceSpaceUnder),
        TokenizerState::TC => Some(Token::TitleCase),
        TokenizerState::UC => Some(Token::UpperCase),
        TokenizerState::UD => Some(Token::ReplaceUnderDash),
        TokenizerState::UP => Some(Token::ReplaceUnderPeriod),
        TokenizerState::US => Some(Token::ReplaceUnderSpace),
        _ => None,
    }
}

/// A state that is reading a keyword.
pub open spec fn is_keyword_state(s: TokenizerState) -> bool {
    !(s is Init || s is Comma || s is Space || s is String || s is Number)
}

/// The configuration after `c` starts a new token from `m`.
pub open spec fn start(m: LexerModel, c: char) -> Result<LexerModel, LexError> {
    if c == ',' {
        Ok(model(TokenizerState::Comma, m.text, m.number))
    } else if c == ' ' {
        Ok(model(TokenizerState::Space, m.text, m.number))
    } else if c == '"' {
        Ok(model(TokenizerState::String, seq![], m.number))
    } else if is_digit(c) {
        Ok(model(TokenizerState::Number, m.text, digit_value(c) as usize))
    } else {
        match keyword_start(c) {
            Some(s) => Ok(model(s, m.text, m.number)),
            None => Err(LexError::UnexpectedChar { found: c }),
        }
    }
}

/// Starts a new token at `c` after emitting `pending`.
pub open spec fn start_after(m: LexerModel, c: char, pending: Seq<Lexeme>) -> Result<
    (LexerModel, Seq<Lexeme>),
    LexError,
> {
    match start(m, c) {
        Ok(m2) => Ok((m2, pending)),
        Err(e) => Err(e),
    }
}

/// One transition: the next configuration and the lexemes emitted on the way.
pub open spec fn step(m: LexerModel, c: char) -> Result<(LexerModel, Seq<Lexeme>), LexError> {
    match m.state {
        TokenizerState::Init => start_after(m, c, seq![]),
        TokenizerState::Comma => start_after(m, c, seq![Lexeme::Plain(Token::Comma)]),
        TokenizerState::Space => if c == ' ' {
            Ok((m, seq![]))
        } else {
            start_after(m, c, seq![Lexeme::Plain(Token::Space)])
        },
        TokenizerState::String => if c == '"' {
            Ok((model(TokenizerState::Init, seq![], m.number), seq![Lexeme::Quoted(m.text)]))
        } else {
            Ok((model(TokenizerState::String, m.text.push(c), m.number), seq![]))
        },
        TokenizerState::Number => if is_digit(c) {
            if m.number * 10 + digit_value(c) > usize::MAX {
                Err(LexError::InvalidNumber)
            } else {
                Ok(
                    (
                        model(
                            TokenizerState::Number,
                            m.text,
                            (m.number * 10 + digit_value(c)) as usize,
                        ),
                        seq![],
                    ),
                )
            }
        } else if is_separator_char(c) {
            start_after(m, c, seq![Lexeme::Plain(Token::Number { value: m.number })])
        } else {
            Err(LexError::UnexpectedChar { found: c })
        },
        _ => match keyword_next(m.state, c) {
            Some(s) => Ok((model(s, m.text, m.number), seq![])),
            None => if is_separator_char(c) && keyword_token(m.state) is Some {
                start_after(m, c, seq![Lexeme::Plain(keyword_token(m.state)->0)])
            } else {
                Err(LexError::UnexpectedChar { found: c })
            },
        },
    }
}

/// What the end of the input emits in configuration `m`.
pub open spec fn finish(m: LexerModel) -> Result<Seq<Lexeme>, LexError> {
    match m.state {
        TokenizerState::Init => Ok(seq![]),
        TokenizerState::Comma => Ok(seq![Lexeme::Plain(Token::Comma)]),
        TokenizerState::Space => Ok(seq![Lexeme::Plain(Token::Space)]),
        TokenizerState::String => Err(LexError::UnterminatedString),
        TokenizerState::Number => Ok(seq![Lexeme::Plain(Token::Number { value: m.number })]),
        _ => match keyword_token(m.state) {
            Some(t) => Ok(seq![Lexeme::Plain(t)]),
            None => Err(LexError::UnfinishedKeyword),
        },
    }
}

/// The lexemes of `input` read from configuration `m`, or the first error.
pub open spec fn lex_from(m: LexerModel, input: Seq<char>) -> Result<Seq<Lexeme>, LexError>
    decreases input.len(),
{
    if input.len() == 0 {
        finish(m)
    } else {
        match step(m, input[0]) {
            Err(e) => Err(e),
            Ok((m2, out)) => match lex_from(m2, input.drop_first()) {
                Ok(rest) => Ok(out + rest),
                Err(e) => Err(e),
            },
        }
    }
}

/// The lexemes of a whole rule string.
pub open spec fn lex(input: Seq<char>) -> Result<Seq<Lexeme>, LexError> {
    lex_from(initial_model(), input)
}

/// A token result seen through `lexemes`.
pub open spec fn lexed(r: Result<Vec<Token>, LexError>) -> Result<Seq<Lexeme>, LexError> {
    match r {
        Ok(v) => Ok(lexemes(v@)),
        Err(e) => Err(e),
    }
}

/// One transition taken by the tokenizer: from `m0` with tokens `t0` to `m1`
/// with tokens `t1`, reporting `r`.
pub open spec fn stepped(
    m0: LexerModel,
    t0: Seq<Token>,
    c: char,
    m1: LexerModel,
    t1: Seq<Token>,
    r: Result<(), LexError>,
) -> bool {
    match step(m0, c) {
        Ok((m, out)) => r is Ok && m1 == m && lexemes(t1) == lexemes(t0) + out,
        Err(e) => r == Err::<(), LexError>(e) && t1 == t0,
    }
}

proof fn lemma_lexemes_push(tokens: Seq<Token>, t: Token)
    ensures
        lexemes(tokens.push(t)) == lexemes(tokens) + seq![t@],
{
    assert(lexemes(tokens.push(t)) =~= lexemes(tokens) + seq![t@]);
}

/// The tokenizer: the automaton's configuration in executable form.
pub struct Tokenizer {
    state: TokenizerState,
    string: String,
    number: usize,
}

impl View for Tokenizer {
    type V = LexerModel;

    closed spec fn view(&self) -> LexerModel {
        model(self.state, self.string@, self.number)
    }
}

impl Tokenizer {
    /// A tokenizer in the initial state.
    pub fn new() -> (r: Tokenizer)
        ensures
            r@ == initial_model(),
    {
        Tokenizer { state: TokenizerState::Init, string: String::new(), number: 0 }
    }

    /// Runs the automaton over `input` from the current configuration.
    pub fn run(&mut self, input: &str) -> (r: Result<Vec<Token>, LexError>)
        ensures
            lexed(r) == lex_from(old(self)@, input@),
    {
        let ghost m0 = self@;
        let mut tokens: Vec<Token> = Vec::new();
        let n = input.unicode_len();
        let mut i: usize = 0;
        proof {
            assert(input@.skip(0) =~= input@);
            if let Ok(rest) = lex_from(m0, input@) {
                assert(lexemes(tokens@) + rest =~= rest);
            }
        }
        while i < n
            invariant
                n == input@.len(),
                i <= n,
                m0 == old(self)@,
                match lex_from(self@, input@.skip(i as int)) {
                    Ok(rest) => lex_from(m0, input@) == Ok::<Seq<Lexeme>, LexError>(
                        lexemes(tokens@) + rest,
                    ),
                    Err(e) => lex_from(m0, input@) == Err::<Seq<Lexeme>, LexError>(e),
                },
            decreases n - i,
        {
            let c = input.get_char(i);
            let ghost m = self@;
            let ghost t = tokens@;
            let res = match self.state {
                TokenizerState::Init => self.state_init(c, &mut tokens),
                TokenizerState::Comma => self.state_comma(c, &mut tokens),
                TokenizerState::Space => self.state_space(c, &mut tokens),
                TokenizerState::String => self.state_string(c, &mut tokens),
                TokenizerState::Number => self.state_number(c, &mut tokens),
                TokenizerState::C => self.state_c(c, &tokens),
                TokenizerState::CC => self.state_cc(c, &tokens),
                TokenizerState::CCJ => self.state_ccj(c, &mut tokens),
                TokenizerState::CCS => self.state_ccs(c, &mut tokens),
                TokenizerState::D => self.state_d(c, &mut tokens),
                TokenizerState::DP => self.state_dp(c, &mut tokens),
                TokenizerState::DS => self.state_ds(c, &mut tokens),
                TokenizerState::DU => self.state_du(c, &mut tokens),
                TokenizerState::E => self.state_e(c, &tokens),
                TokenizerState::EA => self.state_ea(c, &mut tokens),
                TokenizerState::ER => self.state_er(c, &mut tokens),
                TokenizerState::EN => self.state_en(c, &tokens),
                TokenizerState::END => self.state_end(c, &mut tokens),
                TokenizerState::I => self.state_i(c, &mut tokens),
                TokenizerState::IP => self.state_ip(c, &mut tokens),
                TokenizerState::IT => self.state_it(c, &mut tokens),
                TokenizerState::L => self.state_l(c, &tokens),
                TokenizerState::LC => self.state_lc(c, &mut tokens),
                TokenizerState::P => self.state_p(c, &mut tokens),
                TokenizerState::PD => self.state_pd(c, &mut tokens),
                TokenizerState::PS => self.state_ps(c, &mut tokens),
                TokenizerState::PU => self.state_pu(c, &mut tokens),
                TokenizerState::R => self.state_r(c, &mut tokens),
                TokenizerState::S => self.state_s(c, &mut tokens),
                TokenizerState::SC => self.state_sc(c, &mut tokens),
                TokenizerState::SP => self.state_sp(c, &mut tokens),
                TokenizerState::SD => self.state_sd(c, &mut tokens),
                TokenizerState::SU => self.state_su(c, &mut tokens),
                TokenizerState::T => self.state_t(c, &tokens),
                TokenizerState::TC => self.state_tc(c, &mut tokens),
                TokenizerState::U => self.state_u(c, &tokens),
                TokenizerState::UC => self.state_uc(c, &mut tokens),
                TokenizerState::UD => self.state_ud(c, &mut tokens),
                TokenizerState::UP => self.state_up(c, &mut tokens),
                TokenizerState::US => self.state_us(c, &mut tokens),
            };
            proof {
                let s = input@.skip(i as int);
                assert(s[0] == c);
                assert(s.drop_first() =~= input@.skip(i + 1));
                assert(stepped(m, t, c, self@, tokens@, res));
                assert(lex_from(m, s) == match step(m, s[0]) {
                    Err(e) => Err(e),
                    Ok((m2, out)) => match lex_from(m2, s.drop_first()) {
                        Ok(rest) => Ok(out + rest),
                        Err(e) => Err(e),
                    },
                });
                if let Err(e) = step(m, c) {
                    assert(lex_from(m, s) == Err::<Seq<Lexeme>, LexError>(e));
                    assert(lex_from(m0, input@) == Err::<Seq<Lexeme>, LexError>(e));
                }
                if let Ok((m2, out)) = step(m, c) {
                    assert(lexemes(tokens@) == lexemes(t) + out);
                    if let Ok(rest) = lex_from(m2, s.drop_first()) {
                        assert(lexemes(t) + (out + rest) =~= lexemes(tokens@) + rest);
                    }
                }
            }
            if let Err(e) = res {
                assert(lex_from(m0, input@) == Err::<Seq<Lexeme>, LexError>(e));
                return Err(e);
            }
            i = i + 1;
        }
        let ghost t = tokens@;
        let res = self.finish(&mut tokens);
        proof {
            assert(input@.skip(i as int).len() == 0);
        }
        match res {
            Ok(()) => Ok(tokens),
            Err(e) => Err(e),
        }
    }

    /// Emits what the end of input closes.
    fn finish(&mut self, tokens: &mut Vec<Token>) -> (r: Result<(), LexError>)
        ensures
            match finish(old(self)@) {
                Ok(out) => r is Ok && lexemes(final(tokens)@) == lexemes(old(tokens)@) + out,
                Err(e) => r == Err::<(), LexError>(e) && final(tokens)@ == old(tokens)@,
            },
    {
        let ghost t = tokens@;
        let token = match self.state {
            TokenizerState::Init => {
                assert(lexemes(tokens@) =~= lexemes(t) + seq![]);
                return Ok(());
            },
            TokenizerState::Comma => Token::Comma,
            TokenizerState::Space => Token::Space,
            TokenizerState::String => {
                return Err(LexError::UnterminatedString);
            },
            TokenizerState::Number => Token::Number { value: self.number },
            TokenizerState::C
            | TokenizerState::CC
            | TokenizerState::E
            | TokenizerState::EN
            | TokenizerState::L
            | TokenizerState::T
            | TokenizerState::U => {
                return Err(LexError::UnfinishedKeyword);
            },
            _ => keyword_of(self.state),
        };
        tokens.push(token);
        proof {
            lemma_lexemes_push(t, token);
        }
        Ok(())
    }

    /// Starts a new token at `c`.
    fn start(&mut self, c: char) -> (r: Result<(), LexError>)
        ensures
            match start(old(self)@, c) {
                Ok(m) => r is Ok && final(self)@ == m,
                Err(e) => r == Err::<(), LexError>(e),
            },
    {
        match c {
            ',' => {
                self.state = TokenizerState::Comma;
            },
            ' ' => {
                self.state = TokenizerState::Space;
            },
            '"' => {
                self.string = String::new();
                self.state = TokenizerState::String;
            },
            '0'..='9' => {
                self.number = (c as u32 - '0' as u32) as usize;
                self.state = TokenizerState::Number;
            },
            'c' => {
                self.state = TokenizerState::C;
            },
            'd' => {
                self.state = TokenizerState::D;
            },
            'e' => {
                self.state = TokenizerState::E;
            },
            'i' => {
                self.state = TokenizerState::I;
            },
            'l' => {
                self.state = TokenizerState::L;
            },
            'p' => {
                self.state = TokenizerState::P;
            },
            'r' => {
                self.state = TokenizerState::R;
            },
            's' => {
                self.state = TokenizerState::S;
            },
            't' => {
                self.state = TokenizerState::T;
            },
            'u' => {
                self.state = TokenizerState::U;
            },
            _ => {
                return Err(LexError::UnexpectedChar { found: c });
            },
        }
        Ok(())
    }

    /// Starts a new token at `c` and, once that succeeds, emits `token`.
    fn emit_then_start(&mut self, c: char, tokens: &mut Vec<Token>, token: Token) -> (r: Result<
        (),
        LexError,
    >)
        ensures
            match start(old(self)@, c) {
                Ok(m) => r is Ok && final(self)@ == m && lexemes(final(tokens)@) == lexemes(
                    old(tokens)@,
                ) + seq![token@],
                Err(e) => r == Err::<(), LexError>(e) && final(tokens)@ == old(tokens)@,
            },
    {
        let ghost t = tokens@;
        let started = self.start(c);
        if started.is_ok() {
            tokens.push(token);
            proof {
                lemma_lexemes_push(t, token);
            }
        }
        started
    }

    fn state_init(&mut self, c: char, tokens: &mut Vec<Token>) -> (r: Result<(), LexError>)
        requires
            old(self).state == TokenizerState::Init,
        ensures
            stepped(old(self)@, old(tokens)@, c, final(self)@, final(tokens)@, r),
    {
        assert(lexemes(tokens@) =~= lexemes(tokens@) + seq![]);
        self.start(c)
    }

    fn state_comma(&mut self, c: char, tokens: &mut Vec<Token>) -> (r: Result<(), LexError>)
        requires
            old(self).state == TokenizerState::Comma,
        ensures
            stepped(old(self)@, old(tokens)@, c, final(self)@, final(tokens)@, r),
    {
        self.emit_then_start(c, tokens, Token::Comma)
    }

    fn state_space(&mut self, c: char, tokens: &mut Vec<Token>) -> (r: Result<(), LexError>)
        requires
            old(self).state == TokenizerState::Space,
        ensures
            stepped(old(self)@, old(tokens)@, c, final(self)@, final(tokens)@, r),
    {
        if c == ' ' {
            assert(lexemes(tokens@) =~= lexemes(tokens@) + seq![]);
            Ok(())
        } else {
            self.emit_then_start(c, tokens, Token::Space)
        }
    }

    fn state_string(&mut self, c: char, tokens: &mut Vec<Token>) -> (r: Result<(), LexError>)
        requires
            old(self).state == TokenizerState::String,
        ensures
            stepped(old(self)@, old(tokens)@, c, final(self)@, final(tokens)@, r),
    {
        let ghost t = tokens@;
        if c == '"' {
            let token = Token::String { value: self.string.clone() };
            tokens.push(token);
            proof {
                lemma_lexemes_push(t, token);
            }
            self.string = String::new();
            self.state = TokenizerState::Init;
        } else {
            self.string.push(c);
            assert(lexemes(tokens@) =~= lexemes(t) + seq![]);
        }
        Ok(())
    }

    fn state_number(&mut self, c: char, tokens: &mut Vec<Token>) -> (r: Result<(), LexError>)
        requires
            old(self).state == TokenizerState::Number,
        ensures
            stepped(old(self)@, old(tokens)@, c, final(self)@, final(tokens)@, r),
    {
        match c {
            ',' | ' ' => {
                let value = self.number;
                self.emit_then_start(c, tokens, Token::Number { value })
            },
            '0'..='9' => {
                let digit = (c as u32 - '0' as u32) as usize;
                match self.number.checked_mul(10) {
                    Some(tens) => match tens.checked_add(digit) {
                        Some(value) => {
                            self.number = value;
                            assert(lexemes(tokens@) =~= lexemes(tokens@) + seq![]);
                            Ok(())
                        },
                        None => Err(LexError::InvalidNumber),
                    },
                    None => Err(LexError::InvalidNumber),
                }
            },
            _ => Err(LexError::UnexpectedChar { found: c }),
        }
    }

    /// Moves to keyword state `next` on a letter that continues the keyword.
    fn advance(&mut self, c: char, next: TokenizerState, tokens: &Vec<Token>) -> (r: Result<
        (),
        LexError,
    >)
        requires
            keyword_next(old(self).state, c) == Some(next),
        ensures
            stepped(old(self)@, tokens@, c, final(self)@, tokens@, r),
    {
        assert(lexemes(tokens@) =~= lexemes(tokens@) + seq![]);
        self.state = next;
        Ok(())
    }

    /// A keyword state on a character that continues no keyword: the keyword
    /// read so far ends at a separator, anything else is an error.
    fn emit_token(&mut self, c: char, tokens: &mut Vec<Token>, token: Token) -> (r: Result<
        (),
        LexError,
    >)
        requires
            is_keyword_state(old(self).state),
            keyword_next(old(self).state, c) is None,
            keyword_token(old(self).state) == Some(token),
        ensures
            stepped(old(self)@, old(tokens)@, c, final(self)@, final(tokens)@, r),
    {
        match c {
            ',' | ' ' => self.emit_then_start(c, tokens, token),
            _ => Err(LexError::UnexpectedChar { found: c }),
        }
    }

    /// A prefix state on a character that continues no keyword.
    fn reject(&mut self, c: char, tokens: &Vec<Token>) -> (r: Result<(), LexError>)
        requires
            is_keyword_state(old(self).state),
            keyword_next(old(self).state, c) is None,
            keyword_token(old(self).state) is None,
        ensures
            stepped(old(self)@, tokens@, c, final(self)@, tokens@, r),
    {
        Err(LexError::UnexpectedChar { found: c })
    }

    fn state_c(&mut self, c: char, tokens: &Vec<Token>) -> (r: Result<(), LexError>)
        requires
            old(self).state == TokenizerState::C,
        ensures
            stepped(old(self)@, tokens@, c, final(self)@, tokens@, r),
    {
        match c {
            'c' => self.advance(c, TokenizerState::CC, tokens),
            _ => self.reject(c, tokens),
        }
    }

    fn state_cc(&mut self, c: char, tokens: &Vec<Token>) -> (r: Result<(), LexError>)
        requires
            old(self).state == TokenizerState::CC,
        ensures
            stepped(old(self)@, tokens@, c, final(self)@, tokens@, r),
    {
        match c {
            'j' => self.advance(c, TokenizerState::CCJ, tokens),
            's' => self.advance(c, TokenizerState::CCS, tokens),
            _ => self.reject(c, tokens),
        }
    }

    fn state_ccj(&mut self, c: char, tokens: &mut Vec<Token>) -> (r: Result<(), LexError>)
        requires
            old(self).state == TokenizerState::CCJ,
        ensures
            stepped(old(self)@, old(tokens)@, c, final(self)@, final(tokens)@, r),
    {
        self.emit_token(c, tokens, Token::CamelCaseJoin)
    }

    fn state_ccs(&mut self, c: char, tokens: &mut Vec<Token>) -> (r: Result<(), LexError>)
        requires
            old(self).state == TokenizerState::CCS,
        ensures
            stepped(old(self)@, old(tokens)@, c, final(self)@, final(tokens)@, r),
    {
        self.emit_token(c, tokens, Token::CamelCaseSplit)
    }

    fn state_d(&mut self, c: char, tokens: &mut Vec<Token>) -> (r: Result<(), LexError>)
        requires
            old(self).state == TokenizerState::D,
        ensures
            stepped(old(self)@, old(tokens)@, c, final(self)@, final(tokens)@, r),
    {
        match c {
            'p' => self.advance(c, TokenizerState::DP, tokens),
            's' => self.advance(c, TokenizerState::DS, tokens),
            'u' => self.advance(c, TokenizerState::DU, tokens),
            _ => self.emit_token(c, tokens, Token::Delete),
        }
    }

    fn state_dp(&mut self, c: char, tokens: &mut Vec<Token>) -> (r: Result<(), LexError>)
        requires
            old(self).state == TokenizerState::DP,
        ensures
            stepped(old(self)@, old(tokens)@, c, final(self)@, final(tokens)@, r),
    {
        self.emit_token(c, tokens, Token::ReplaceDashPeriod)
    }

    fn state_ds(&mut self, c: char, tokens: &mut Vec<Token>) -> (r: Result<(), LexError>)
        requires
            old(self).state == TokenizerState::DS,
        ensures
            stepped(old(self)@, old(tokens)@, c, final(self)@, final(tokens)@, r),
    {
        self.emit_token(c, tokens, Token::ReplaceDashSpace)
    }

    fn state_du(&mut self, c: char, tokens: &mut Vec<Token>) -> (r: Result<(), LexError>)
        requires
            old(self).state == TokenizerState::DU,
        ensures
            stepped(old(self)@, old(tokens)@, c, final(self)@, final(tokens)@, r),
    {
        self.emit_token(c, tokens, Token::ReplaceDashUnder)
    }

    fn state_e(&mut self, c: char, tokens: &Vec<Token>) -> (r: Result<(), LexError>)
        requires
            old(self).state == TokenizerState::E,
        ensures
            stepped(old(self)@, tokens@, c, final(self)@, tokens@, r),
    {
        match c {
            'a' => self.advance(c, TokenizerState::EA, tokens),
            'r' => self.advance(c, TokenizerState::ER, tokens),
            'n' => self.advance(c, TokenizerState::EN, tokens),
            _ => self.reject(c, tokens),
        }
    }

    fn state_ea(&mut self, c: char, tokens: &mut Vec<Token>) -> (r: Result<(), LexError>)
        requires
            old(self).state == TokenizerState::EA,
        ensures
            stepped(old(self)@, old(tokens)@, c, final(self)@, final(tokens)@, r),
    {
        self.emit_token(c, tokens, Token::ExtensionAdd)
    }

    fn state_er(&mut self, c: char, tokens: &mut Vec<Token>) -> (r: Result<(), LexError>)
        requires
            old(self).state == TokenizerState::ER,
        ensures
            stepped(old(self)@, old(tokens)@, c, final(self)@, final(tokens)@, r),
    {
        self.emit_token(c, tokens, Token::ExtensionRemove)
    }

    fn state_en(&mut self, c: char, tokens: &Vec<Token>) -> (r: Result<(), LexError>)
        requires
            old(self).state == TokenizerState::EN,
        ensures
            stepped(old(self)@, tokens@, c, final(self)@, tokens@, r),
    {
        match c {
            'd' => self.advance(c, TokenizerState::END, tokens),
            _ => self.reject(c, tokens),
        }
    }

    fn state_end(&mut self, c: char, tokens: &mut Vec<Token>) -> (r: Result<(), LexError>)
        requires
            old(self).state == TokenizerState::END,
        ensures
            stepped(old(self)@, old(tokens)@, c, final(self)@, final(tokens)@, r),
    {
        self.emit_token(c, tokens, Token::End)
    }

    fn state_i(&mut self, c: char, tokens: &mut Vec<Token>) -> (r: Result<(), LexError>)
        requires
            old(self).state == TokenizerState::I,
        ensures
            stepped(old(self)@, old(tokens)@, c, final(self)@, final(tokens)@, r),
    {
        match c {
            'p' => self.advance(c, TokenizerState::IP, tokens),
            't' => self.advance(c, TokenizerState::IT, tokens),
            _ => self.emit_token(c, tokens, Token::Insert),
        }
    }

    fn state_ip(&mut self, c: char, tokens: &mut Vec<Token>) -> (r: Result<(), LexError>)
        requires
            old(self).state == TokenizerState::IP,
        ensures
            stepped(old(self)@, old(tokens)@, c, final(self)@, final(tokens)@, r),
    {
        self.emit_token(c, tokens, Token::InteractivePatternMatch)
    }

    fn state_it(&mut self, c: char, tokens: &mut Vec<Token>) -> (r: Result<(), LexError>)
        requires
            old(self).state == TokenizerState::IT,
        ensures
            stepped(old(self)@, old(tokens)@, c, final(self)@, final(tokens)@, r),
    {
        self.emit_token(c, tokens, Token::InteractiveTokenize)
    }

    fn state_l(&mut self, c: char, tokens: &Vec<Token>) -> (r: Result<(), LexError>)
        requires
            old(self).state == TokenizerState::L,
        ensures
            stepped(old(self)@, tokens@, c, final(self)@, tokens@, r),
    {
        match c {
            'c' => self.advance(c, TokenizerState::LC, tokens),
            _ => self.reject(c, tokens),
        }
    }

    fn state_lc(&mut self, c: char, tokens: &mut Vec<Token>) -> (r: Result<(), LexError>)
        requires
            old(self).state == TokenizerState::LC,
        ensures
            stepped(old(self)@, old(tokens)@, c, final(self)@, final(tokens)@, r),
    {
        self.emit_token(c, tokens, Token::LowerCase)
    }

    fn state_p(&mut self, c: char, tokens: &mut Vec<Token>) -> (r: Result<(), LexError>)
        requires
            old(self).state == TokenizerState::P,
        ensures
            stepped(old(self)@, old(tokens)@, c, final(self)@, final(tokens)@, r),
    {
        match c {
            's' => self.advance(c, TokenizerState::PS, tokens),
            'd' => self.advance(c, TokenizerState::PD, tokens),
            'u' => self.advance(c, TokenizerState::PU, tokens),
            _ => self.emit_token(c, tokens, Token::PatternMatch),
        }
    }

    fn state_pd(&mut self, c: char, tokens: &mut Vec<Token>) -> (r: Result<(), LexError>)
        requires
            old(self).state == TokenizerState::PD,
        ensures
            stepped(old(self)@, old(tokens)@, c, final(self)@, final(tokens)@, r),
    {
        self.emit_token(c, tokens, Token::ReplacePeriodDash)
    }

    fn state_ps(&mut self, c: char, tokens: &mut Vec<Token>) -> (r: Result<(), LexError>)
        requires
            old(self).state == TokenizerState::PS,
        ensures
            stepped(old(self)@, old(tokens)@, c, final(self)@, final(tokens)@, r),
    {
        self.emit_token(c, tokens, Token::ReplacePeriodSpace)
    }

    fn state_pu(&mut self, c: char, tokens: &mut Vec<Token>) -> (r: Result<(), LexError>)
        requires
            old(self).state == TokenizerState::PU,
        ensures
            stepped(old(self)@, old(tokens)@, c, final(self)@, final(tokens)@, r),
    {
        self.emit_token(c, tokens, Token::ReplacePeriodUnder)
    }

    fn state_r(&mut self, c: char, tokens: &mut Vec<Token>) -> (r: Result<(), LexError>)
        requires
            old(self).state == TokenizerState::R,
        ensures
            stepped(old(self)@, old(tokens)@, c, final(self)@, final(tokens)@, r),
    {
        self.emit_token(c, tokens, Token::Replace)
    }

    fn state_s(&mut self, c: char, tokens: &mut Vec<Token>) -> (r: Result<(), LexError>)
        requires
            old(self).state == TokenizerState::S,
        ensures
            stepped(old(self)@, old(tokens)@, c, final(self)@, final(tokens)@, r),
    {
        match c {
            'c' => self.advance(c, TokenizerState::SC, tokens),
            'p' => self.advance(c, TokenizerState::SP, tokens),
            'd' => self.advance(c, TokenizerState::SD, tokens),
            'u' => self.advance(c, TokenizerState::SU, tokens),
            _ => self.emit_token(c, tokens, Token::Sanitize),
        }
    }

    fn state_sc(&mut self, c: char, tokens: &mut Vec<Token>) -> (r: Result<(), LexError>)
        requires
            old(self).state == TokenizerState::SC,
        ensures
            stepped(old(self)@, old(tokens)@, c, final(self)@, final(tokens)@, r),
    {
        self.emit_token(c, tokens, Token::SentenceCase)
    }

    fn state_sp(&mut self, c: char, tokens: &mut Vec<Token>) -> (r: Result<(), LexError>)
        requires
            old(self).state == TokenizerState::SP,
        ensures
            stepped(old(self)@, old(tokens)@, c, final(self)@, final(tokens)@, r),
    {
        self.emit_token(c, tokens, Token::ReplaceSpacePeriod)
    }

    fn state_sd(&mut self, c: char, tokens: &mut Vec<Token>) -> (r: Result<(), LexError>)
        requires
            old(self).state == TokenizerState::SD,
        ensures
            stepped(old(self)@, old(tokens)@, c, final(self)@, final(tokens)@, r),
    {
        self.emit_token(c, tokens, Token::ReplaceSpaceDash)
    }

    fn state_su(&mut self, c: char, tokens: &mut Vec<Token>) -> (r: Result<(), LexError>)
        requires
            old(self).state == TokenizerState::SU,
        ensures
            stepped(old(self)@, old(tokens)@, c, final(self)@, final(tokens)@, r),
    {
        self.emit_token(c, tokens, Token::ReplaceSpaceUnder)
    }

    fn state_t(&mut self, c: char, tokens: &Vec<Token>) -> (r: Result<(), LexError>)
        requires
            old(self).state == TokenizerState::T,
        ensures
            stepped(old(self)@, tokens@, c, final(self)@, tokens@, r),
    {
        match c {
            'c' => self.advance(c, TokenizerState::TC, tokens),
            _ => self.reject(c, tokens),
        }
    }

    fn state_tc(&mut self, c: char, tokens: &mut Vec<Token>) -> (r: Result<(), LexError>)
        requires
            old(self).state == TokenizerState::TC,
        ensures
            stepped(old(self)@, old(tokens)@, c, final(self)@, final(tokens)@, r),
    {
        self.emit_token(c, tokens, Token::TitleCase)
    }

    fn state_u(&mut self, c: char, tokens: &Vec<Token>) -> (r: Result<(), LexError>)
        requires
            old(self).state == TokenizerState::U,
        ensures
            stepped(old(self)@, tokens@, c, final(self)@, tokens@, r),
    {
        match c {
            'c' => self.advance(c, TokenizerState::UC, tokens),
            'd' => self.advance(c, TokenizerState::UD, tokens),
            'p' => self.advance(c, TokenizerState::UP, tokens),
            's' => self.advance(c, TokenizerState::US, tokens),
            _ => self.reject(c, tokens),
        }
    }

    fn state_uc(&mut self, c: char, tokens: &mut Vec<Token>) -> (r: Result<(), LexError>)
        requires
            old(self).state == TokenizerState::UC,
        ensures
            stepped(old(self)@, old(tokens)@, c, final(self)@, final(tokens)@, r),
    {
        self.emit_token(c, tokens, Token::UpperCase)
    }

    fn state_ud(&mut self, c: char, tokens: &mut Vec<Token>) -> (r: Result<(), LexError>)
        requires
            old(self).state == TokenizerState::UD,
        ensures
            stepped(old(self)@, old(tokens)@, c, final(self)@, final(tokens)@, r),
    {
        self.emit_token(c, tokens, Token::ReplaceUnderDash)
    }

    fn state_us(&mut self, c: char, tokens: &mut Vec<Token>) -> (r: Result<(), LexError>)
        requires
            old(self).state == TokenizerState::US,
        ensures
            stepped(old(self)@, old(tokens)@, c, final(self)@, final(tokens)@, r),
    {
        self.emit_token(c, tokens, Token::ReplaceUnderSpace)
    }

    fn state_up(&mut self, c: char, tokens: &mut Vec<Token>) -> (r: Result<(), LexError>)
        requires
            old(self).state == TokenizerState::UP,
        ensures
            stepped(old(self)@, old(tokens)@, c, final(self)@, final(tokens)@, r),
    {
        self.emit_token(c, tokens, Token::ReplaceUnderPeriod)
    }
}

/// The token of a keyword state that has read a whole keyword.
fn keyword_of(s: TokenizerState) -> (r: Token)
    requires
        keyword_token(s) is Some,
    ensures
        keyword_token(s) == Some(r),
{
    match s {
        TokenizerState::CCJ => Token::CamelCaseJoin,
        TokenizerState::CCS => Token::CamelCaseSplit,
        TokenizerState::D => Token::Delete,
        TokenizerState::DP => Token::ReplaceDashPeriod,
        TokenizerState::DS => Token::ReplaceDashSpace,
        TokenizerState::DU => Token::ReplaceDashUnder,
        TokenizerState::EA => Token::ExtensionAdd,
        TokenizerState::ER => Token::ExtensionRemove,
        TokenizerState::END => Token::End,
        TokenizerState::I => Token::Insert,
        TokenizerState::IP => Token::InteractivePatternMatch,
        TokenizerState::IT => Token::InteractiveTokenize,
        TokenizerState::LC => Token::LowerCase,
        TokenizerState::P => Token::PatternMatch,
        TokenizerState::PD => Token::ReplacePeriodDash,
        TokenizerState::PS => Token::ReplacePeriodSpace,
        TokenizerState::PU => Token::ReplacePeriodUnder,
        TokenizerState::R => Token::Replace,
        TokenizerState::S => Token::Sanitize,
        TokenizerState::SC => Token::SentenceCase,
        TokenizerState::SP => Token::ReplaceSpacePeriod,
        TokenizerState::SD => Token::ReplaceSpaceDash,
        TokenizerState::SU => Token::ReplaceSpaceUnder,
        TokenizerState::TC => Token::TitleCase,
        TokenizerState::UC => Token::UpperCase,
        TokenizerState::UD => Token::ReplaceUnderDash,
        TokenizerState::UP => Token::ReplaceUnderPeriod,
        _ => Token::ReplaceUnderSpace,
    }
}

/// Tokenizes a whole rule string.
pub fn tokenize(input: &str) -> (r: Result<Vec<Token>, LexError>)
    ensures
        lexed(r) == lex(input@),
{
    Tokenizer::new().run(input)
}

/// The text of a keyword token.
pub open spec fn keyword_text(t: Token) -> Option<Seq<char>> {
    match t {
        Token::End => Some(seq!['e', 'n', 'd']),
        Token::PatternMatch => Some(seq!['p']),
        Token::LowerCase => Some(seq!['l', 'c']),
        Token::UpperCase => Some(seq!['u', 'c']),
        Token::TitleCase => Some(seq!['t', 'c']),
        Token::SentenceCase => Some(seq!['s', 'c']),
        Token::CamelCaseJoin => Some(seq!['c', 'c', 'j']),
        Token::CamelCaseSplit => Some(seq!['c', 'c', 's']),
        Token::ExtensionAdd => Some(seq!['e', 'a']),
        Token::ExtensionRemove => Some(seq!['e', 'r']),
        Token::Insert => Some(seq!['i']),
        Token::InteractiveTokenize => Some(seq!['i', 't']),
        Token::InteractivePatternMatch => Some(seq!['i', 'p']),
        Token::Delete => Some(seq!['d']),
        Token::Replace => Some(seq!['r']),
        Token::ReplaceSpaceDash => Some(seq!['s', 'd']),
        Token::ReplaceSpacePeriod => Some(seq!['s', 'p']),
        Token::ReplaceSpaceUnder => Some(seq!['s', 'u']),
        Token::ReplaceDashSpace => Some(seq!['d', 's']),
        Token::ReplaceDashPeriod => Some(seq!['d', 'p']),
        Token::ReplaceDashUnder => Some(seq!['d', 'u']),
        Token::ReplacePeriodDash => Some(seq!['p', 'd']),
        Token::ReplacePeriodSpace => Some(seq!['p', 's']),
        Token::ReplacePeriodUnder => Some(seq!['p', 'u']),
        Token::ReplaceUnderSpace => Some(seq!['u', 's']),
        Token::ReplaceUnderDash => Some(seq!['u', 'd']),
        Token::ReplaceUnderPeriod => Some(seq!['u', 'p']),
        Token::Sanitize => Some(seq!['s']),
        _ => None,
    }
}

/// The keyword state reached from `s` by the letters `w`.
pub open spec fn walk(s: TokenizerState, w: Seq<char>) -> Option<TokenizerState>
    decreases w.len(),
{
    if w.len() == 0 {
        Some(s)
    } else {
        match keyword_next(s, w[0]) {
            Some(s2) => walk(s2, w.drop_first()),
            None => None,
        }
    }
}

/// The keyword state that the letters `w` lead to from the start of a token.
pub open spec fn keyword_state(w: Seq<char>) -> Option<TokenizerState> {
    if w.len() == 0 {
        None
    } else {
        match keyword_start(w[0]) {
            Some(s) => walk(s, w.drop_first()),
            None => None,
        }
    }
}

/// `p` put before the lexemes of a result.
pub open spec fn prepend(p: Seq<Lexeme>, r: Result<Seq<Lexeme>, LexError>) -> Result<
    Seq<Lexeme>,
    LexError,
> {
    match r {
        Ok(v) => Ok(p + v),
        Err(e) => Err(e),
    }
}

/// The text of each keyword leads from the start of a token to a state that
/// has read exactly that keyword.
pub proof fn lemma_keyword_spelling(t: Token)
    requires
        keyword_text(t) is Some,
    ensures
        keyword_state(keyword_text(t)->0) matches Some(s) && is_keyword_state(s) && keyword_token(
            s,
        ) == Some(t),
{
    reveal_with_fuel(walk, 3);
}

proof fn lemma_walk(m: LexerModel, w: Seq<char>, rest: Seq<char>)
    requires
        is_keyword_state(m.state),
        walk(m.state, w) is Some,
    ensures
        lex_from(m, w + rest) == lex_from(model(walk(m.state, w)->0, m.text, m.number), rest),
        is_keyword_state(walk(m.state, w)->0),
    decreases w.len(),
{
    if w.len() == 0 {
        assert(w + rest =~= rest);
    } else {
        let s2 = keyword_next(m.state, w[0])->0;
        let m2 = model(s2, m.text, m.number);
        assert((w + rest)[0] == w[0]);
        assert((w + rest).drop_first() =~= w.drop_first() + rest);
        lemma_walk(m2, w.drop_first(), rest);
        if let Ok(r) = lex_from(m2, w.drop_first() + rest) {
            assert(seq![] + r =~= r);
        }
    }
}

/// Reading the whole text of keyword `t` from the start of a token (in the
/// initial state, or just after a comma) ends in the state of `t`, having
/// emitted the pending comma if there was one.
pub proof fn lemma_lex_keyword(m: LexerModel, t: Token, rest: Seq<char>)
    requires
        m.state is Init || m.state is Comma,
        keyword_text(t) is Some,
    ensures
        keyword_state(keyword_text(t)->0) matches Some(s) && lex_from(
            m,
            keyword_text(t)->0 + rest,
        ) == prepend(
            if m.state is Comma {
                seq![Lexeme::Plain(Token::Comma)]
            } else {
                seq![]
            },
            lex_from(model(s, m.text, m.number), rest),
        ) && is_keyword_state(s) && keyword_token(s) == Some(t),
{
    lemma_keyword_spelling(t);
    let w = keyword_text(t)->0;
    let s1 = keyword_start(w[0])->0;
    let m1 = model(s1, m.text, m.number);
    assert((w + rest)[0] == w[0]);
    assert((w + rest).drop_first() =~= w.drop_first() + rest);
    lemma_walk(m1, w.drop_first(), rest);
}

/// Tokenizing the bare text of a keyword yields exactly that keyword's token.
pub proof fn law_keyword_alone(t: Token)
    requires
        keyword_text(t) is Some,
    ensures
        lex(keyword_text(t)->0) == Ok::<Seq<Lexeme>, LexError>(seq![Lexeme::Plain(t)]),
{
    let w = keyword_text(t)->0;
    lemma_lex_keyword(initial_model(), t, seq![]);
    assert(w + seq![] =~= w);
    assert(seq![] + seq![Lexeme::Plain(t)] =~= seq![Lexeme::Plain(t)]);
}

} // verus!