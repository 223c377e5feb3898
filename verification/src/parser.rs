//! Splits Monkey C source into words, statements and nested blocks.
//!
//! A statement is a line of words ended by `;` or by the end of a source
//! line; consecutive statements are gathered into a `Multiple` block, which
//! is closed by the next bracket. `{ .. }` nests a `Collection` and `( .. )`
//! a `Parameter`. `//` ends a source line.
use vstd::prelude::*;
use crate::text::{chars_of, string_from, push_all, push_decimal, decimal};

verus! {

/// A word of the source with the line and column (both from 1) of its first character.
#[derive(Debug, Clone)]
pub struct Word {
    pub word: String,
    pub line: Option<usize>,
    pub char_num: Option<usize>,
}

/// The model of a word.
pub struct WordM {
    pub word: Seq<char>,
    pub line: Option<usize>,
    pub char_num: Option<usize>,
}

impl View for Word {
    type V = WordM;

    open spec fn view(&self) -> WordM {
        WordM { word: self.word@, line: self.line, char_num: self.char_num }
    }
}

/// A piece of the parsed source.
#[derive(Debug)]
pub enum Block {
    Word(Word),
    Line(Vec<Word>),
    Multiple(Vec<Vec<Word>>),
    Collection(Vec<Block>),
    Parameter(Vec<Block>),
}

/// The model of a block.
pub enum BlockM {
    Word(WordM),
    Line(Seq<WordM>),
    Multiple(Seq<Seq<WordM>>),
    Collection(Seq<BlockM>),
    Parameter(Seq<BlockM>),
}

pub open spec fn words_view(s: Seq<Word>) -> Seq<WordM> {
    Seq::new(s.len(), |i: int| s[i]@)
}

pub open spec fn lines_view(s: Seq<Vec<Word>>) -> Seq<Seq<WordM>> {
    Seq::new(s.len(), |i: int| words_view(s[i]@))
}

pub open spec fn block_view(b: Block) -> BlockM
    decreases b,
{
    match b {
        Block::Word(w) => BlockM::Word(w@),
        Block::Line(v) => BlockM::Line(words_view(v@)),
        Block::Multiple(v) => BlockM::Multiple(lines_view(v@)),
        Block::Collection(v) => BlockM::Collection(blocks_view(v@)),
        Block::Parameter(v) => BlockM::Parameter(blocks_view(v@)),
    }
}

pub open spec fn blocks_view(s: Seq<Block>) -> Seq<BlockM>
    decreases s,
{
    Seq::new(s.len(), |i: int| if 0 <= i < s.len() { block_view(s[i]) } else { BlockM::Line(seq![]) })
}

impl View for Block {
    type V = BlockM;

    open spec fn view(&self) -> BlockM {
        block_view(*self)
    }
}

pub open spec fn stack_view(s: Seq<Vec<Block>>) -> Seq<Seq<BlockM>> {
    Seq::new(s.len(), |i: int| blocks_view(s[i]@))
}

pub open spec fn empty_word() -> WordM {
    WordM { word: seq![], line: None, char_num: None }
}

impl Word {
    /// An empty word with no position.
    pub fn new() -> (r: Self)
        ensures
            r@ == empty_word(),
    {
        Word { word: String::new(), line: None, char_num: None }
    }
}

// ---------------------------------------------------------------------------
// The scan, over models.

/// The scanner's state: the open blocks (innermost last), the statements not
/// yet gathered into a block, the statement being read, the word being read,
/// and whether a word has started since the statement began.
pub struct ScanM {
    pub stack: Seq<Seq<BlockM>>,
    pub multi: Seq<Seq<WordM>>,
    pub line: Seq<WordM>,
    pub word: WordM,
    pub first: bool,
}

pub open spec fn scan_start() -> ScanM {
    ScanM { stack: seq![seq![]], multi: seq![], line: seq![], word: empty_word(), first: false }
}

/// The current word, if it has characters, ends and joins the statement.
pub open spec fn end_word(s: ScanM) -> ScanM {
    if s.word.word.len() > 0 {
        ScanM { line: s.line.push(s.word), word: empty_word(), ..s }
    } else {
        s
    }
}

/// The current statement, if it has words, ends and joins the pending statements.
pub open spec fn end_line(s: ScanM) -> ScanM {
    if s.line.len() > 0 {
        ScanM { multi: s.multi.push(s.line), line: seq![], first: false, ..s }
    } else {
        s
    }
}

/// `b` appended to the innermost open block.
pub open spec fn add_to_top(stack: Seq<Seq<BlockM>>, b: BlockM) -> Seq<Seq<BlockM>> {
    stack.update(stack.len() - 1, stack.last().push(b))
}

pub open spec fn unfinished_msg(line: nat, ch: nat) -> Seq<char> {
    "You haven't finished the line. Line: "@ + decimal(line) + "; Char: "@ + decimal(ch)
}

/// What a bracket does first: a word in progress ends the statement (only
/// before `(`; before any other bracket it is an error), and the pending
/// statements become a `Multiple` block.
pub open spec fn end_block(s: ScanM, line: nat, ch: nat, new_line: bool) -> Result<ScanM, Seq<char>> {
    if s.word.word.len() > 0 && !new_line {
        Err(unfinished_msg(line, ch))
    } else {
        let s1 = if s.word.word.len() > 0 {
            ScanM { line: s.line.push(s.word), word: empty_word(), first: false, ..s }
        } else {
            s
        };
        let s2 = end_line(s1);
        Ok(
            if s2.multi.len() > 0 {
                ScanM { stack: add_to_top(s2.stack, BlockM::Multiple(s2.multi)), multi: seq![], ..s2 }
            } else {
                s2
            },
        )
    }
}

/// A closing bracket: the innermost block, if it is not the outermost,
/// becomes a `Parameter` (for `)`) or a `Collection` of the block around it.
pub open spec fn close_block(s: ScanM, param: bool) -> ScanM {
    if s.stack.len() > 1 {
        let finished = s.stack.last();
        let b = if param { BlockM::Parameter(finished) } else { BlockM::Collection(finished) };
        ScanM { stack: add_to_top(s.stack.drop_last(), b), ..s }
    } else {
        s
    }
}

/// Another character of the current word, which takes its position from its first character.
pub open spec fn take_char(s: ScanM, c: char, line: nat, ch: nat) -> ScanM {
    let w = s.word;
    ScanM {
        word: WordM {
            word: w.word.push(c),
            line: if w.line is Some { w.line } else { Some(line as usize) },
            char_num: if w.char_num is Some { w.char_num } else { Some(ch as usize) },
        },
        first: true,
        ..s
    }
}

/// Scanning the characters of source line number `num` from index `k` on:
/// `//` starts a comment that runs to the end of the line, and a lone `/`
/// is a word of its own.
pub open spec fn scan_line(s: ScanM, chars: Seq<char>, k: nat, num: nat) -> Result<ScanM, Seq<char>>
    decreases chars.len() - k,
{
    if k >= chars.len() {
        Ok(s)
    } else {
        let c = chars[k as int];
        let pos = k + 1;
        if c == '{' || c == '(' {
            match end_block(s, num, pos, c == '(') {
                Err(m) => Err(m),
                Ok(s1) => scan_line(ScanM { stack: s1.stack.push(seq![]), ..s1 }, chars, k + 1, num),
            }
        } else if c == '}' || c == ')' {
            match end_block(s, num, pos, c == ')') {
                Err(m) => Err(m),
                Ok(s1) => scan_line(close_block(s1, c == ')'), chars, k + 1, num),
            }
        } else if c == ';' {
            scan_line(ScanM { first: false, ..end_line(end_word(s)) }, chars, k + 1, num)
        } else if c == '\t' || c == ' ' {
            scan_line(if s.first { end_word(s) } else { s }, chars, k + 1, num)
        } else if c == '/' {
            if k + 1 < chars.len() && chars[k + 1int] == '/' {
                Ok(s)
            } else {
                scan_line(end_word(take_char(end_word(s), '/', num, pos)), chars, k + 1, num)
            }
        } else {
            scan_line(take_char(s, c, num, pos), chars, k + 1, num)
        }
    }
}

/// Scanning the source lines from index `i` on; each line ends its word and statement.
pub open spec fn scan_lines(s: ScanM, lines: Seq<Seq<char>>, i: nat) -> Result<ScanM, Seq<char>>
    decreases lines.len() - i,
{
    if i >= lines.len() {
        Ok(s)
    } else {
        match scan_line(ScanM { first: false, ..s }, lines[i as int], 0, i + 1) {
            Err(m) => Err(m),
            Ok(s1) => scan_lines(end_line(end_word(s1)), lines, i + 1),
        }
    }
}

/// The blocks of a source given by its lines: the innermost block open at
/// the end, or the message of the first unfinished statement. Nothing where
/// statements are left after the last bracket.
pub open spec fn parse_model(lines: Seq<Seq<char>>) -> Option<Result<Seq<BlockM>, Seq<char>>> {
    match scan_lines(scan_start(), lines, 0) {
        Err(m) => Some(Err(m)),
        Ok(s) => if s.multi.len() > 0 {
            None
        } else {
            Some(Ok(s.stack.last()))
        },
    }
}

// ---------------------------------------------------------------------------
// What the words of a parse look like.

/// The characters that end a word or are dropped: blanks, `;` and brackets.
pub open spec fn is_separator(c: char) -> bool {
    c == ' ' || c == '\t' || c == ';' || c == '{' || c == '}' || c == '(' || c == ')'
}

/// The word's first character stands in the source at the word's line and
/// column (both counted from 1).
pub open spec fn word_placed(lines: Seq<Seq<char>>, w: WordM) -> bool {
    &&& w.line matches Some(l) && 1 <= l <= lines.len()
    &&& w.char_num matches Some(c) && 1 <= c <= lines[w.line->0 - 1].len()
    &&& lines[w.line->0 - 1][w.char_num->0 - 1] == w.word[0]
}

/// A word of the parse: not empty, placed at its first character, without
/// separators, and holding a `/` only as the word `/` itself.
pub open spec fn word_clean(lines: Seq<Seq<char>>, w: WordM) -> bool {
    &&& w.word.len() > 0
    &&& word_placed(lines, w)
    &&& forall|i: int| 0 <= i < w.word.len() ==> !is_separator(#[trigger] w.word[i])
    &&& forall|i: int| 0 <= i < w.word.len() && #[trigger] w.word[i] == '/' ==> w.word == seq!['/']
}

pub open spec fn words_clean(lines: Seq<Seq<char>>, ws: Seq<WordM>) -> bool {
    forall|i: int| 0 <= i < ws.len() ==> word_clean(lines, #[trigger] ws[i])
}

/// Every word in the block is a word of the parse.
pub open spec fn block_clean(lines: Seq<Seq<char>>, b: BlockM) -> bool
    decreases b,
{
    match b {
        BlockM::Word(w) => word_clean(lines, w),
        BlockM::Line(ws) => words_clean(lines, ws),
        BlockM::Multiple(ls) => forall|i: int| 0 <= i < ls.len() ==> words_clean(lines, #[trigger] ls[i]),
        BlockM::Collection(bs) => forall|i: int| 0 <= i < bs.len() ==> block_clean(lines, #[trigger] bs[i]),
        BlockM::Parameter(bs) => forall|i: int| 0 <= i < bs.len() ==> block_clean(lines, #[trigger] bs[i]),
    }
}

pub open spec fn blocks_clean(lines: Seq<Seq<char>>, bs: Seq<BlockM>) -> bool {
    forall|i: int| 0 <= i < bs.len() ==> block_clean(lines, #[trigger] bs[i])
}

/// The scanner holds only words of the parse, and the word it is reading has
/// no separator and, once started, its position.
pub open spec fn scan_clean(lines: Seq<Seq<char>>, s: ScanM) -> bool {
    &&& s.stack.len() >= 1
    &&& forall|j: int| 0 <= j < s.stack.len() ==> blocks_clean(lines, #[trigger] s.stack[j])
    &&& forall|j: int| 0 <= j < s.multi.len() ==> words_clean(lines, #[trigger] s.multi[j])
    &&& words_clean(lines, s.line)
    &&& forall|i: int| 0 <= i < s.word.word.len() ==> !is_separator(#[trigger] s.word.word[i]) && s.word.word[i] != '/'
    &&& s.word.word.len() > 0 ==> word_placed(lines, s.word)
    &&& s.word.word.len() == 0 ==> s.word.line is None && s.word.char_num is None
}

proof fn lemma_add_to_top_clean(lines: Seq<Seq<char>>, stack: Seq<Seq<BlockM>>, b: BlockM)
    requires
        stack.len() >= 1,
        forall|j: int| 0 <= j < stack.len() ==> blocks_clean(lines, #[trigger] stack[j]),
        block_clean(lines, b),
    ensures
        add_to_top(stack, b).len() == stack.len(),
        forall|j: int| 0 <= j < add_to_top(stack, b).len() ==> blocks_clean(lines, #[trigger] add_to_top(stack, b)[j]),
{
    let r = add_to_top(stack, b);
    let top = stack.last().push(b);
    assert forall|j: int| 0 <= j < r.len() implies blocks_clean(lines, #[trigger] r[j]) by {
        if j == stack.len() - 1 {
            assert(r[j] == top);
            assert forall|i: int| 0 <= i < top.len() implies block_clean(lines, #[trigger] top[i]) by {
                if i < stack.last().len() {
                    assert(top[i] == stack.last()[i]);
                    assert(blocks_clean(lines, stack[stack.len() - 1]));
                }
            }
        } else {
            assert(r[j] == stack[j]);
        }
    }
}

proof fn lemma_end_word_clean(lines: Seq<Seq<char>>, s: ScanM)
    requires
        scan_clean(lines, s),
    ensures
        scan_clean(lines, end_word(s)),
{
    if s.word.word.len() > 0 {
        let l = s.line.push(s.word);
        assert forall|i: int| 0 <= i < l.len() implies word_clean(lines, #[trigger] l[i]) by {
            if i < s.line.len() {
                assert(l[i] == s.line[i]);
            }
        }
        assert(end_word(s).word.word =~= seq![]);
    }
}

proof fn lemma_end_line_clean(lines: Seq<Seq<char>>, s: ScanM)
    requires
        scan_clean(lines, s),
    ensures
        scan_clean(lines, end_line(s)),
{
    if s.line.len() > 0 {
        let m = s.multi.push(s.line);
        assert forall|j: int| 0 <= j < m.len() implies words_clean(lines, #[trigger] m[j]) by {
            if j < s.multi.len() {
                assert(m[j] == s.multi[j]);
            }
        }
        assert(end_line(s).line =~= seq![]);
    }
}

proof fn lemma_end_block_clean(lines: Seq<Seq<char>>, s: ScanM, line: nat, ch: nat, new_line: bool)
    requires
        scan_clean(lines, s),
    ensures
        end_block(s, line, ch, new_line) matches Ok(s1) ==> scan_clean(lines, s1),
{
    if !(s.word.word.len() > 0 && !new_line) {
        let s1 = if s.word.word.len() > 0 {
            ScanM { line: s.line.push(s.word), word: empty_word(), first: false, ..s }
        } else {
            s
        };
        if s.word.word.len() > 0 {
            lemma_end_word_clean(lines, s);
            assert(s1 == ScanM { first: false, ..end_word(s) });
        }
        lemma_end_line_clean(lines, s1);
        let s2 = end_line(s1);
        if s2.multi.len() > 0 {
            let b = BlockM::Multiple(s2.multi);
            assert(block_clean(lines, b));
            lemma_add_to_top_clean(lines, s2.stack, b);
            let s3 = ScanM { stack: add_to_top(s2.stack, b), multi: seq![], ..s2 };
            assert(s3.multi.len() == 0);
        }
    }
}

proof fn lemma_close_block_clean(lines: Seq<Seq<char>>, s: ScanM, param: bool)
    requires
        scan_clean(lines, s),
    ensures
        scan_clean(lines, close_block(s, param)),
{
    if s.stack.len() > 1 {
        let finished = s.stack.last();
        let b = if param { BlockM::Parameter(finished) } else { BlockM::Collection(finished) };
        assert(blocks_clean(lines, s.stack[s.stack.len() - 1]));
        assert(block_clean(lines, b));
        let rest = s.stack.drop_last();
        assert forall|j: int| 0 <= j < rest.len() implies blocks_clean(lines, #[trigger] rest[j]) by {
            assert(rest[j] == s.stack[j]);
        }
        lemma_add_to_top_clean(lines, rest, b);
    }
}

proof fn lemma_scan_line_clean(lines: Seq<Seq<char>>, s: ScanM, chars: Seq<char>, k: nat, num: nat)
    requires
        scan_clean(lines, s),
        1 <= num <= lines.len(),
        chars == lines[num - 1],
        num <= usize::MAX,
        chars.len() <= usize::MAX,
    ensures
        scan_line(s, chars, k, num) matches Ok(s1) ==> scan_clean(lines, s1),
    decreases chars.len() - k,
{
    if k < chars.len() {
        let c = chars[k as int];
        let pos = k + 1;
        if c == '{' || c == '(' {
            lemma_end_block_clean(lines, s, num, pos, c == '(');
            if let Ok(s1) = end_block(s, num, pos, c == '(') {
                let s2 = ScanM { stack: s1.stack.push(seq![]), ..s1 };
                assert forall|j: int| 0 <= j < s2.stack.len() implies blocks_clean(lines, #[trigger] s2.stack[j]) by {
                    if j < s1.stack.len() {
                        assert(s2.stack[j] == s1.stack[j]);
                    }
                }
                lemma_scan_line_clean(lines, s2, chars, k + 1, num);
            }
        } else if c == '}' || c == ')' {
            lemma_end_block_clean(lines, s, num, pos, c == ')');
            if let Ok(s1) = end_block(s, num, pos, c == ')') {
                lemma_close_block_clean(lines, s1, c == ')');
                lemma_scan_line_clean(lines, close_block(s1, c == ')'), chars, k + 1, num);
            }
        } else if c == ';' {
            lemma_end_word_clean(lines, s);
            lemma_end_line_clean(lines, end_word(s));
            lemma_scan_line_clean(lines, ScanM { first: false, ..end_line(end_word(s)) }, chars, k + 1, num);
        } else if c == '\t' || c == ' ' {
            if s.first {
                lemma_end_word_clean(lines, s);
            }
            lemma_scan_line_clean(lines, if s.first { end_word(s) } else { s }, chars, k + 1, num);
        } else if c == '/' {
            if !(k + 1 < chars.len() && chars[k + 1int] == '/') {
                lemma_end_word_clean(lines, s);
                let s1 = end_word(s);
                let s2 = take_char(s1, '/', num, pos);
                let s3 = end_word(s2);
                assert(s2.word.word =~= seq!['/']);
                assert(s2.word.line == Some(num as usize) && s2.word.char_num == Some(pos as usize));
                assert(word_clean(lines, s2.word));
                let l = s1.line.push(s2.word);
                assert(s3.line == l);
                assert forall|i: int| 0 <= i < l.len() implies word_clean(lines, #[trigger] l[i]) by {
                    if i < s1.line.len() {
                        assert(l[i] == s1.line[i]);
                    }
                }
                assert(s3.word.word =~= seq![]);
                lemma_scan_line_clean(lines, s3, chars, k + 1, num);
            }
        } else {
            let s1 = take_char(s, c, num, pos);
            assert(!is_separator(c));
            assert(s1.word.word[0] == if s.word.word.len() > 0 { s.word.word[0] } else { c });
            assert(chars[k as int] == c);
            if s.word.word.len() == 0 {
                assert(s1.word.line == Some(num as usize) && s1.word.char_num == Some(pos as usize));
            }
            assert(word_placed(lines, s1.word));
            assert forall|i: int| 0 <= i < s1.word.word.len() implies !is_separator(#[trigger] s1.word.word[i]) && s1.word.word[i] != '/' by {
                if i < s.word.word.len() {
                    assert(s1.word.word[i] == s.word.word[i]);
                }
            }
            lemma_scan_line_clean(lines, s1, chars, k + 1, num);
        }
    }
}

proof fn lemma_scan_lines_clean(lines: Seq<Seq<char>>, s: ScanM, i: nat)
    requires
        scan_clean(lines, s),
        lines.len() <= usize::MAX,
        forall|j: int| 0 <= j < lines.len() ==> #[trigger] lines[j].len() <= usize::MAX,
    ensures
        scan_lines(s, lines, i) matches Ok(s1) ==> scan_clean(lines, s1),
    decreases lines.len() - i,
{
    if i < lines.len() {
        lemma_scan_line_clean(lines, ScanM { first: false, ..s }, lines[i as int], 0, i + 1);
        if let Ok(s1) = scan_line(ScanM { first: false, ..s }, lines[i as int], 0, i + 1) {
            lemma_end_word_clean(lines, s1);
            lemma_end_line_clean(lines, end_word(s1));
            lemma_scan_lines_clean(lines, end_line(end_word(s1)), i + 1);
        }
    }
}

/// Every word of a parse is nonempty, carries the line and column (both from
/// 1) at which its first character stands in the source, holds no blank,
/// `;` or bracket, and holds a `/` only as the division word `/` itself (for
/// a source whose line count and line lengths fit in a `usize`).
pub proof fn lemma_parse_words_clean(lines: Seq<Seq<char>>)
    requires
        lines.len() <= usize::MAX,
        forall|j: int| 0 <= j < lines.len() ==> #[trigger] lines[j].len() <= usize::MAX,
    ensures
        parse_model(lines) matches Some(Ok(bs)) ==> blocks_clean(lines, bs),
{
    let s0 = scan_start();
    assert(s0.word.word =~= seq![]);
    assert forall|j: int| 0 <= j < s0.stack.len() implies blocks_clean(lines, #[trigger] s0.stack[j]) by {
        assert(s0.stack[j] =~= seq![]);
    }
    lemma_scan_lines_clean(lines, s0, 0);
    if let Ok(s) = scan_lines(s0, lines, 0) {
        assert(blocks_clean(lines, s.stack[s.stack.len() - 1]));
    }
}

pub open spec fn source_view(lines: Seq<String>) -> Seq<Seq<char>> {
    Seq::new(lines.len(), |i: int| lines[i]@)
}

// ---------------------------------------------------------------------------
// The scanner.

struct Scanner {
    stack: Vec<Vec<Block>>,
    multi: Vec<Vec<Word>>,
    line: Vec<Word>,
    word: Vec<char>,
    word_line: Option<usize>,
    word_char: Option<usize>,
    first_char: bool,
}

impl View for Scanner {
    type V = ScanM;

    closed spec fn view(&self) -> ScanM {
        ScanM {
            stack: stack_view(self.stack@),
            multi: lines_view(self.multi@),
            line: words_view(self.line@),
            word: WordM { word: self.word@, line: self.word_line, char_num: self.word_char },
            first: self.first_char,
        }
    }
}


fn unfinished_message(line: usize, ch: usize) -> (r: String)
    ensures
        r@ == unfinished_msg(line as nat, ch as nat),
{
    let mut v = chars_of("You haven't finished the line. Line: ");
    push_decimal(&mut v, line as u64);
    push_all(&mut v, chars_of("; Char: ").as_slice());
    push_decimal(&mut v, ch as u64);
    string_from(v.as_slice())
}

impl Scanner {
    closed spec fn wf(&self) -> bool {
        self.stack@.len() >= 1
    }

    fn new() -> (r: Scanner)
        ensures
            r@ == scan_start(),
            r.wf(),
    {
        let mut stack: Vec<Vec<Block>> = Vec::new();
        let e: Vec<Block> = Vec::new();
        assert(blocks_view(e@) =~= seq![]);
        stack.push(e);
        let r = Scanner {
            stack,
            multi: Vec::new(),
            line: Vec::new(),
            word: Vec::new(),
            word_line: None,
            word_char: None,
            first_char: false,
        };
        assert(r@.word.word =~= seq![]);
        assert(r@.stack =~= seq![seq![]]);
        assert(r@.multi =~= seq![]);
        assert(r@.line =~= seq![]);
        r
    }

    /// Moves the current word, which has characters, to the statement.
    fn finish_word(&mut self)
        requires
            old(self).wf(),
        ensures
            final(self).wf(),
            final(self)@ == (ScanM { line: old(self)@.line.push(old(self)@.word), word: empty_word(), ..old(self)@ }),
    {
        let ghost before = self.line@;
        let ghost w = self@.word;
        let mut chars: Vec<char> = Vec::new();
        std::mem::swap(&mut chars, &mut self.word);
        let word = Word { word: string_from(chars.as_slice()), line: self.word_line, char_num: self.word_char };
        assert(word@ == w);
        self.line.push(word);
        assert(words_view(self.line@) =~= words_view(before).push(w));
        self.word_line = None;
        self.word_char = None;
        assert(self@.word == empty_word());
    }

    fn add_last_word(&mut self)
        requires
            old(self).wf(),
        ensures
            final(self).wf(),
            final(self)@ == end_word(old(self)@),
    {
        if self.word.len() > 0 {
            self.finish_word();
        }
    }

    fn add_last_line(&mut self)
        requires
            old(self).wf(),
        ensures
            final(self).wf(),
            final(self)@ == end_line(old(self)@),
    {
        if self.line.len() > 0 {
            let ghost before = self.multi@;
            let mut l: Vec<Word> = Vec::new();
            std::mem::swap(&mut l, &mut self.line);
            self.multi.push(l);
            assert(lines_view(self.multi@) =~= lines_view(before).push(words_view(l@)));
            assert(words_view(self.line@) =~= seq![]);
            self.first_char = false;
        }
    }

    /// Appends `b` to the innermost open block.
    fn push_top(&mut self, b: Block)
        requires
            old(self).wf(),
        ensures
            final(self).wf(),
            final(self)@ == (ScanM { stack: add_to_top(old(self)@.stack, b@), ..old(self)@ }),
    {
        let ghost before = self.stack@;
        let mut top = self.stack.pop().unwrap();
        let ghost t0 = top@;
        top.push(b);
        assert(blocks_view(top@) =~= blocks_view(t0).push(b@));
        self.stack.push(top);
        assert(stack_view(self.stack@) =~= add_to_top(stack_view(before), b@));
    }

    fn add_last_block(&mut self, line: usize, chars: usize, new_line: bool) -> (r: Result<(), String>)
        requires
            old(self).wf(),
        ensures
            final(self).wf(),
            match end_block(old(self)@, line as nat, chars as nat, new_line) {
                Err(m) => r matches Err(e) && e@ == m,
                Ok(s) => r is Ok && final(self)@ == s,
            },
    {
        if self.word.len() > 0 {
            if new_line {
                self.finish_word();
                self.first_char = false;
            } else {
                return Err(unfinished_message(line, chars));
            }
        }
        self.add_last_line();
        if self.multi.len() > 0 {
            let mut m: Vec<Vec<Word>> = Vec::new();
            std::mem::swap(&mut m, &mut self.multi);
            self.push_top(Block::Multiple(m));
            assert(lines_view(self.multi@) =~= seq![]);
        }
        Ok(())
    }

    fn open_block(&mut self)
        requires
            old(self).wf(),
        ensures
            final(self).wf(),
            final(self)@ == (ScanM { stack: old(self)@.stack.push(seq![]), ..old(self)@ }),
    {
        let ghost before = self.stack@;
        let e: Vec<Block> = Vec::new();
        assert(blocks_view(e@) =~= seq![]);
        self.stack.push(e);
        assert(stack_view(self.stack@) =~= stack_view(before).push(seq![]));
    }

    fn close_block(&mut self, param: bool)
        requires
            old(self).wf(),
        ensures
            final(self).wf(),
            final(self)@ == close_block(old(self)@, param),
    {
        if self.stack.len() > 1 {
            let ghost before = self.stack@;
            let finished = self.stack.pop().unwrap();
            assert(stack_view(self.stack@) =~= stack_view(before).drop_last());
            if param {
                self.push_top(Block::Parameter(finished));
            } else {
                self.push_top(Block::Collection(finished));
            }
        }
    }

    fn take_char(&mut self, c: char, line: usize, ch: usize)
        requires
            old(self).wf(),
        ensures
            final(self).wf(),
            final(self)@ == take_char(old(self)@, c, line as nat, ch as nat),
    {
        self.word.push(c);
        if self.word_line.is_none() {
            self.word_line = Some(line);
        }
        if self.word_char.is_none() {
            self.word_char = Some(ch);
        }
        self.first_char = true;
    }

    /// Scans source line number `num`.
    fn scan_line(&mut self, chars: &[char], num: usize) -> (r: Result<(), String>)
        requires
            old(self).wf(),
        ensures
            final(self).wf(),
            match scan_line(old(self)@, chars@, 0, num as nat) {
                Err(m) => r matches Err(e) && e@ == m,
                Ok(s) => r is Ok && final(self)@ == s,
            },
    {
        let ghost s0 = self@;
        let mut k: usize = 0;
        while k < chars.len()
            invariant
                self.wf(),
                k <= chars@.len(),
                s0 == old(self)@,
                scan_line(s0, chars@, 0, num as nat) == scan_line(self@, chars@, k as nat, num as nat),
            decreases chars@.len() - k,
        {
            let c = chars[k];
            let pos = k + 1;
            if c == '{' || c == '(' {
                let ghost cs = self@;
                match self.add_last_block(num, pos, c == '(') {
                    Err(e) => {
                        assert(scan_line(cs, chars@, k as nat, num as nat) is Err);
                        return Err(e);
                    },
                    Ok(_) => {},
                }
                self.open_block();
            } else if c == '}' || c == ')' {
                let ghost cs = self@;
                match self.add_last_block(num, pos, c == ')') {
                    Err(e) => {
                        assert(scan_line(cs, chars@, k as nat, num as nat) is Err);
                        return Err(e);
                    },
                    Ok(_) => {},
                }
                self.close_block(c == ')');
            } else if c == ';' {
                self.add_last_word();
                self.add_last_line();
                self.first_char = false;
            } else if c == '\t' || c == ' ' {
                if self.first_char {
                    self.add_last_word();
                }
            } else if c == '/' {
                if k + 1 < chars.len() && chars[k + 1] == '/' {
                    return Ok(());
                }
                self.add_last_word();
                self.take_char('/', num, pos);
                self.add_last_word();
            } else {
                self.take_char(c, num, pos);
            }
            k = k + 1;
        }
        Ok(())
    }
}

/// Parses a source given by its lines, as read from a file without their
/// line ends; `Err` holds the message of the first unfinished statement.
pub fn parse_lines(lines: &Vec<String>) -> (r: Result<Vec<Block>, String>)
    requires
        parse_model(source_view(lines@)) is Some,
    ensures
        match parse_model(source_view(lines@))->0 {
            Ok(b) => r matches Ok(v) && blocks_view(v@) == b,
            Err(m) => r matches Err(e) && e@ == m,
        },
{
    match try_parse_lines(lines) {
        Some(r) => r,
        None => {
            assert(false);
            Err(String::new())
        },
    }
}

/// As `parse_lines`, or nothing where statements are left after the last bracket.
pub fn try_parse_lines(lines: &Vec<String>) -> (r: Option<Result<Vec<Block>, String>>)
    ensures
        match parse_model(source_view(lines@)) {
            None => r is None,
            Some(Ok(b)) => r matches Some(Ok(v)) && blocks_view(v@) == b,
            Some(Err(m)) => r matches Some(Err(e)) && e@ == m,
        },
{
    let ghost src = source_view(lines@);
    let mut sc = Scanner::new();
    let mut i: usize = 0;
    while i < lines.len()
        invariant
            sc.wf(),
            i <= lines@.len(),
            src == source_view(lines@),
            scan_lines(scan_start(), src, 0) == scan_lines(sc@, src, i as nat),
        decreases lines@.len() - i,
    {
        let chars = chars_of(lines[i].as_str());
        assert(chars@ == src[i as int]);
        let ghost cs = sc@;
        sc.first_char = false;
        assert(sc@ == (ScanM { first: false, ..cs }));
        match sc.scan_line(chars.as_slice(), i + 1) {
            Err(e) => {
                assert(scan_lines(cs, src, i as nat) is Err);
                return Some(Err(e));
            },
            Ok(_) => {},
        }
        sc.add_last_word();
        sc.add_last_line();
        i = i + 1;
    }
    if sc.multi.len() > 0 {
        return None;
    }
    let ghost fin = sc@;
    let mut stack = sc.stack;
    let top = stack.pop().unwrap();
    assert(blocks_view(top@) == fin.stack.last());
    Some(Ok(top))
}

} // verus!
