//! The byte-level protocol: newline-terminated lines, the reserved leave
//! command, the attributed form of a relayed line, name validation and the
//! operator's terminal commands.

use vstd::prelude::*;

verus! {

/// The line terminator.
pub const NEWLINE: u8 = 10;

/// The longest registration input that is looked at.
pub const NAME_CAP: usize = 512;

/// The reserved command `/leave`, as bytes.
pub open spec fn leave_token() -> Seq<u8> {
    seq![47u8, 108u8, 101u8, 97u8, 118u8, 101u8]
}

/// The terminal word `leave`, as bytes.
pub open spec fn leave_word() -> Seq<u8> {
    seq![108u8, 101u8, 97u8, 118u8, 101u8]
}

/// The terminal prefix `send ` (with its blank), as bytes.
pub open spec fn send_prefix() -> Seq<u8> {
    seq![115u8, 101u8, 110u8, 100u8, 32u8]
}

/// The line a client gets when its name is refused.
pub open spec fn rejection_line() -> Seq<u8> {
    seq![
        85u8, 115u8, 101u8, 114u8, 110u8, 97u8, 109u8, 101u8, 32u8, 105u8, 115u8, 32u8, 97u8,
        108u8, 114u8, 101u8, 97u8, 100u8, 121u8, 32u8, 116u8, 97u8, 107u8, 101u8, 110u8, 10u8,
    ]
}

/// ASCII white space: blank, tab, line feed, vertical tab, form feed, carriage return.
pub open spec fn is_space(b: u8) -> bool {
    b == 32 || (9 <= b && b <= 13)
}

/// `s` without its leading white space.
pub open spec fn trim_start(s: Seq<u8>) -> Seq<u8>
    decreases s.len(),
{
    if s.len() > 0 && is_space(s[0]) {
        trim_start(s.skip(1))
    } else {
        s
    }
}

/// `s` without its trailing white space.
pub open spec fn trim_end(s: Seq<u8>) -> Seq<u8>
    decreases s.len(),
{
    if s.len() > 0 && is_space(s.last()) {
        trim_end(s.drop_last())
    } else {
        s
    }
}

/// `s` without surrounding white space.
pub open spec fn trimmed(s: Seq<u8>) -> Seq<u8> {
    trim_end(trim_start(s))
}

/// `needle` stands in `hay` at offset `i`.
pub open spec fn occurs_at(hay: Seq<u8>, needle: Seq<u8>, i: int) -> bool {
    0 <= i && i + needle.len() <= hay.len() && hay.subrange(i, i + needle.len()) == needle
}

/// `needle` stands somewhere in `hay`.
pub open spec fn contains_seq(hay: Seq<u8>, needle: Seq<u8>) -> bool {
    exists|i: int| occurs_at(hay, needle, i)
}

/// `s` begins with `prefix`.
pub open spec fn has_prefix(s: Seq<u8>, prefix: Seq<u8>) -> bool {
    occurs_at(s, prefix, 0)
}

/// The relayed form of `message` from `sender`: `[sender]: message` and a newline.
pub open spec fn delivery_line(sender: Seq<u8>, message: Seq<u8>) -> Seq<u8> {
    seq![91u8] + sender + seq![93u8, 58u8, 32u8] + message + seq![10u8]
}

/// Where the first line of `raw` ends: at its first newline among the first
/// `cap` bytes, else at `cap` or at the end of `raw`, whichever comes first.
pub open spec fn line_end(raw: Seq<u8>, cap: int) -> int
    decreases raw.len(),
{
    if raw.len() == 0 || cap <= 0 || raw[0] == NEWLINE {
        0
    } else {
        1 + line_end(raw.skip(1), cap - 1)
    }
}

/// The first line of `raw`, without its newline, at most `cap` bytes long.
pub open spec fn first_line(raw: Seq<u8>, cap: int) -> Seq<u8> {
    raw.take(line_end(raw, cap))
}

/// A name may be registered: it is not empty and does not hold the leave command.
pub open spec fn valid_name(name: Seq<u8>) -> bool {
    name.len() > 0 && !contains_seq(name, leave_token())
}

/// Why a name was refused before the registry was asked.
#[derive(Debug, Clone, Copy, PartialEq, Eq, Structural)]
pub enum NameError {
    /// Nothing is left after trimming.
    Empty,
    /// The name holds the leave command.
    Reserved,
}

/// What the registration input `raw` asks for: the trimmed first line, if it
/// is a valid name.
pub open spec fn name_of(raw: Seq<u8>) -> Result<Seq<u8>, NameError> {
    let name = trimmed(first_line(raw, NAME_CAP as int));
    if name.len() == 0 {
        Err(NameError::Empty)
    } else if contains_seq(name, leave_token()) {
        Err(NameError::Reserved)
    } else {
        Ok(name)
    }
}

/// A command typed at the client's terminal, as a value of the model.
pub enum CommandView {
    Send(Seq<u8>),
    Leave,
    Invalid,
}

/// A command typed at the client's terminal.
#[derive(Debug, PartialEq, Eq)]
pub enum Command {
    /// `send <text>`: the text to send, without a newline.
    Send(Vec<u8>),
    /// `leave`.
    Leave,
    /// Anything else.
    Invalid,
}

impl View for Command {
    type V = CommandView;

    open spec fn view(&self) -> CommandView {
        match self {
            Command::Send(text) => CommandView::Send(text@),
            Command::Leave => CommandView::Leave,
            Command::Invalid => CommandView::Invalid,
        }
    }
}

/// The command that the terminal line `line` stands for.
pub open spec fn command_of(line: Seq<u8>) -> CommandView {
    let t = trimmed(line);
    if has_prefix(t, send_prefix()) {
        CommandView::Send(t.skip(5))
    } else if t == leave_word() {
        CommandView::Leave
    } else {
        CommandView::Invalid
    }
}

/// Whether `b` is ASCII white space.
pub fn byte_is_space(b: u8) -> (r: bool)
    ensures
        r == is_space(b),
{
    b == 32 || (9 <= b && b <= 13)
}

/// A copy of the bytes of `src` from `from` up to `to`.
pub fn copy_range(src: &Vec<u8>, from: usize, to: usize) -> (out: Vec<u8>)
    requires
        from <= to <= src@.len(),
    ensures
        out@ == src@.subrange(from as int, to as int),
{
    let mut out: Vec<u8> = Vec::new();
    let mut i: usize = from;
    while i < to
        invariant
            from <= i <= to <= src@.len(),
            out@ == src@.subrange(from as int, i as int),
        decreases to - i,
    {
        out.push(src[i]);
        i += 1;
        assert(out@ =~= src@.subrange(from as int, i as int));
    }
    out
}

/// Whether `a` and `b` hold the same bytes.
pub fn bytes_equal(a: &Vec<u8>, b: &Vec<u8>) -> (r: bool)
    ensures
        r == (a@ == b@),
{
    if a.len() != b.len() {
        return false;
    }
    let mut i: usize = 0;
    while i < a.len()
        invariant
            a@.len() == b@.len(),
            i <= a@.len(),
            forall|k: int| 0 <= k < i ==> a@[k] == b@[k],
        decreases a@.len() - i,
    {
        if a[i] != b[i] {
            return false;
        }
        i += 1;
    }
    assert(a@ =~= b@);
    true
}

/// Whether `needle` stands in `hay` at offset `at`.
pub fn occurs_here(hay: &Vec<u8>, needle: &Vec<u8>, at: usize) -> (r: bool)
    ensures
        r == occurs_at(hay@, needle@, at as int),
{
    if needle.len() > hay.len() || at > hay.len() - needle.len() {
        return false;
    }
    let mut k: usize = 0;
    while k < needle.len()
        invariant
            at + needle@.len() <= hay@.len() <= usize::MAX,
            k <= needle@.len(),
            forall|j: int| 0 <= j < k ==> hay@[at + j] == needle@[j],
        decreases needle@.len() - k,
    {
        if hay[at + k] != needle[k] {
            assert(hay@.subrange(at as int, at + needle@.len())[k as int] != needle@[k as int]);
            return false;
        }
        k += 1;
    }
    assert(hay@.subrange(at as int, at + needle@.len()) =~= needle@);
    true
}

/// Whether `needle` stands somewhere in `hay`.
pub fn contains_bytes(hay: &Vec<u8>, needle: &Vec<u8>) -> (r: bool)
    ensures
        r == contains_seq(hay@, needle@),
{
    if needle.len() > hay.len() {
        return false;
    }
    let last: usize = hay.len() - needle.len();
    let mut i: usize = 0;
    while i < last
        invariant
            last == hay@.len() - needle@.len(),
            i <= last,
            forall|j: int| 0 <= j < i ==> !occurs_at(hay@, needle@, j),
        decreases last - i,
    {
        if occurs_here(hay, needle, i) {
            return true;
        }
        i += 1;
    }
    occurs_here(hay, needle, last)
}

/// `src` without surrounding white space.
pub fn trim(src: &Vec<u8>) -> (out: Vec<u8>)
    ensures
        out@ == trimmed(src@),
{
    let n: usize = src.len();
    let mut a: usize = 0;
    assert(src@.skip(0) =~= src@);
    while a < n && byte_is_space(src[a])
        invariant
            n == src@.len(),
            a <= n,
            trim_start(src@) == trim_start(src@.skip(a as int)),
        decreases n - a,
    {
        assert(src@.skip(a as int).skip(1) =~= src@.skip(a + 1));
        a += 1;
    }
    assert(src@.skip(a as int) =~= src@.subrange(a as int, n as int));
    let mut b: usize = n;
    while b > a && byte_is_space(src[b - 1])
        invariant
            n == src@.len(),
            a <= b <= n,
            trimmed(src@) == trim_end(src@.subrange(a as int, b as int)),
        decreases b - a,
    {
        assert(src@.subrange(a as int, b as int).drop_last() =~= src@.subrange(
            a as int,
            b - 1,
        ));
        b -= 1;
    }
    copy_range(src, a, b)
}

/// The first line of `raw`, without its newline, at most `cap` bytes long.
pub fn take_first_line(raw: &Vec<u8>, cap: usize) -> (out: Vec<u8>)
    ensures
        out@ == first_line(raw@, cap as int),
{
    let n: usize = raw.len();
    let mut i: usize = 0;
    assert(raw@.skip(0) =~= raw@);
    while i < n && i < cap && raw[i] != NEWLINE
        invariant
            n == raw@.len(),
            i <= n,
            i <= cap,
            line_end(raw@, cap as int) == i + line_end(raw@.skip(i as int), cap - i),
        decreases n - i,
    {
        assert(raw@.skip(i as int).skip(1) =~= raw@.skip(i + 1));
        i += 1;
    }
    assert(raw@.take(i as int) =~= raw@.subrange(0, i as int));
    copy_range(raw, 0, i)
}

/// The bytes of the reserved command `/leave`.
pub fn leave_command() -> (out: Vec<u8>)
    ensures
        out@ == leave_token(),
{
    let mut out: Vec<u8> = Vec::new();
    out.push(47u8);
    out.push(108u8);
    out.push(101u8);
    out.push(97u8);
    out.push(118u8);
    out.push(101u8);
    assert(out@ =~= leave_token());
    out
}

/// Whether `line` is exactly the reserved command `/leave`.
pub fn is_leave(line: &Vec<u8>) -> (r: bool)
    ensures
        r == (line@ == leave_token()),
{
    let token = leave_command();
    bytes_equal(line, &token)
}

/// The line sent to a client whose name is refused.
pub fn rejection() -> (out: Vec<u8>)
    ensures
        out@ == rejection_line(),
{
    let text: [u8; 26] = [
        85u8, 115u8, 101u8, 114u8, 110u8, 97u8, 109u8, 101u8, 32u8, 105u8, 115u8, 32u8, 97u8,
        108u8, 114u8, 101u8, 97u8, 100u8, 121u8, 32u8, 116u8, 97u8, 107u8, 101u8, 110u8, 10u8,
    ];
    let mut out: Vec<u8> = Vec::new();
    let mut i: usize = 0;
    while i < 26
        invariant
            i <= 26,
            out@.len() == i,
            forall|k: int| 0 <= k < i ==> out@[k] == text@[k],
            text@ =~= rejection_line(),
        decreases 26 - i,
    {
        out.push(text[i]);
        i += 1;
    }
    assert(out@ =~= rejection_line());
    out
}

/// Reads a registration input: takes its first line, trims it and checks
/// that the name is not empty and does not hold the leave command.
pub fn parse_name(raw: &Vec<u8>) -> (r: Result<Vec<u8>, NameError>)
    ensures
        match r {
            Ok(name) => name_of(raw@) == Ok::<Seq<u8>, NameError>(name@) && valid_name(name@),
            Err(e) => name_of(raw@) == Err::<Seq<u8>, NameError>(e),
        },
{
    let line = take_first_line(raw, NAME_CAP);
    let name = trim(&line);
    if name.len() == 0 {
        return Err(NameError::Empty);
    }
    let token = leave_command();
    if contains_bytes(&name, &token) {
        return Err(NameError::Reserved);
    }
    Ok(name)
}

/// Appends the bytes of `src` to `dst`.
pub fn append_bytes(dst: &mut Vec<u8>, src: &Vec<u8>)
    ensures
        final(dst)@ == old(dst)@ + src@,
{
    let mut i: usize = 0;
    while i < src.len()
        invariant
            i <= src@.len(),
            dst@ == old(dst)@ + src@.take(i as int),
        decreases src@.len() - i,
    {
        dst.push(src[i]);
        i += 1;
        assert(dst@ =~= old(dst)@ + src@.take(i as int));
    }
    assert(src@.take(src@.len() as int) =~= src@);
}

/// Formats the relayed line for `message` from `sender`.
pub fn format_delivery(sender: &Vec<u8>, message: &Vec<u8>) -> (out: Vec<u8>)
    ensures
        out@ == delivery_line(sender@, message@),
{
    let mut out: Vec<u8> = Vec::new();
    out.push(91u8);
    append_bytes(&mut out, sender);
    out.push(93u8);
    out.push(58u8);
    out.push(32u8);
    append_bytes(&mut out, message);
    out.push(NEWLINE);
    assert(out@ =~= delivery_line(sender@, message@));
    out
}

/// Reads a terminal line: `send <text>`, `leave`, or neither.
pub fn parse_command(line: &Vec<u8>) -> (r: Command)
    ensures
        r@ == command_of(line@),
{
    let t = trim(line);
    let mut prefix: Vec<u8> = Vec::new();
    prefix.push(115u8);
    prefix.push(101u8);
    prefix.push(110u8);
    prefix.push(100u8);
    prefix.push(32u8);
    assert(prefix@ =~= send_prefix());
    if occurs_here(&t, &prefix, 0) {
        let text = copy_range(&t, 5, t.len());
        assert(text@ =~= t@.skip(5));
        return Command::Send(text);
    }
    let mut word: Vec<u8> = Vec::new();
    word.push(108u8);
    word.push(101u8);
    word.push(97u8);
    word.push(118u8);
    word.push(101u8);
    assert(word@ =~= leave_word());
    if bytes_equal(&t, &word) {
        Command::Leave
    } else {
        Command::Invalid
    }
}

/// The complete lines of `buf`, each without its newline, in order. Bytes
/// behind the last newline belong to a line that is not complete yet.
pub open spec fn complete_lines(buf: Seq<u8>) -> Seq<Seq<u8>>
    decreases buf.len(),
{
    let k = line_end(buf, buf.len() as int);
    if 0 <= k < buf.len() {
        seq![buf.take(k)] + complete_lines(buf.skip(k + 1))
    } else {
        Seq::empty()
    }
}

/// The bytes of `buf` behind its last newline.
pub open spec fn unfinished(buf: Seq<u8>) -> Seq<u8>
    decreases buf.len(),
{
    let k = line_end(buf, buf.len() as int);
    if 0 <= k < buf.len() {
        unfinished(buf.skip(k + 1))
    } else {
        buf
    }
}

/// The model of a list of byte strings.
pub open spec fn line_views(lines: Seq<Vec<u8>>) -> Seq<Seq<u8>> {
    lines.map_values(|l: Vec<u8>| l@)
}

/// The end of a line is inside the input, and no newline stands before it;
/// where it is not the end of the input or the cap, a newline stands at it.
pub proof fn lemma_line_end(raw: Seq<u8>, cap: int)
    ensures
        0 <= line_end(raw, cap) <= raw.len(),
        cap >= 0 ==> line_end(raw, cap) <= cap,
        forall|i: int| 0 <= i < line_end(raw, cap) ==> raw[i] != NEWLINE,
        line_end(raw, cap) < raw.len() && line_end(raw, cap) < cap ==> raw[line_end(raw, cap)]
            == NEWLINE,
    decreases raw.len(),
{
    if raw.len() == 0 || cap <= 0 || raw[0] == NEWLINE {
    } else {
        let tail = raw.skip(1);
        lemma_line_end(tail, cap - 1);
        assert forall|i: int| 0 <= i < line_end(raw, cap) implies raw[i] != NEWLINE by {
            if i > 0 {
                assert(tail[i - 1] == raw[i]);
            }
        }
        if line_end(raw, cap) < raw.len() && line_end(raw, cap) < cap {
            assert(tail[line_end(tail, cap - 1)] == raw[line_end(raw, cap)]);
        }
    }
}

/// Where the line that begins at `from` ends: the index of the next newline,
/// or the length of `buf` where none follows.
pub fn find_line_end(buf: &Vec<u8>, from: usize) -> (end: usize)
    requires
        from <= buf@.len(),
    ensures
        from <= end <= buf@.len(),
        end - from == line_end(buf@.skip(from as int), buf@.len() - from),
{
    let n: usize = buf.len();
    let mut i: usize = from;
    assert(buf@.skip(from as int).skip(0) =~= buf@.skip(from as int));
    while i < n && buf[i] != NEWLINE
        invariant
            n == buf@.len(),
            from <= i <= n,
            line_end(buf@.skip(from as int), n - from) == (i - from) + line_end(
                buf@.skip(i as int),
                n - i,
            ),
        decreases n - i,
    {
        assert(buf@.skip(i as int).skip(1) =~= buf@.skip(i + 1));
        i += 1;
    }
    i
}

/// Cuts `buf` into its complete lines and the unfinished rest.
pub fn split_lines(buf: &Vec<u8>) -> (out: (Vec<Vec<u8>>, Vec<u8>))
    ensures
        line_views(out.0@) == complete_lines(buf@),
        out.1@ == unfinished(buf@),
{
    let n: usize = buf.len();
    let mut lines: Vec<Vec<u8>> = Vec::new();
    let mut pos: usize = 0;
    assert(buf@.skip(0) =~= buf@);
    assert(line_views(lines@) =~= Seq::<Seq<u8>>::empty());
    loop
        invariant
            n == buf@.len(),
            pos <= n,
            complete_lines(buf@) == line_views(lines@) + complete_lines(buf@.skip(pos as int)),
            unfinished(buf@) == unfinished(buf@.skip(pos as int)),
        decreases n - pos,
    {
        let end: usize = find_line_end(buf, pos);
        if end >= n {
            assert(complete_lines(buf@) =~= line_views(lines@));
            let rest = copy_range(buf, pos, n);
            assert(rest@ =~= buf@.skip(pos as int));
            return (lines, rest);
        }
        let ghost before = lines@;
        let ghost tail = buf@.skip(pos as int);
        let line = copy_range(buf, pos, end);
        assert(line@ =~= tail.take(end - pos));
        assert(tail.skip(end - pos + 1) =~= buf@.skip(end + 1));
        lines.push(line);
        assert(line_views(lines@) =~= line_views(before) + seq![line@]);
        assert(line_views(before) + (seq![line@] + complete_lines(buf@.skip(end + 1)))
            =~= line_views(lines@) + complete_lines(buf@.skip(end + 1)));
        pos = end + 1;
    }
}

/// The bytes of a stream that wait for their newline.
pub struct LineBuffer {
    partial: Vec<u8>,
}

impl View for LineBuffer {
    type V = Seq<u8>;

    closed spec fn view(&self) -> Seq<u8> {
        self.partial@
    }
}

impl LineBuffer {
    /// A buffer in which nothing waits.
    pub fn new() -> (b: LineBuffer)
        ensures
            b@ == Seq::<u8>::empty(),
    {
        LineBuffer { partial: Vec::new() }
    }

    /// Takes in the next bytes of the stream and gives out the lines that
    /// they complete, each without its newline, in order. What follows the
    /// last newline waits for the next call.
    pub fn feed(&mut self, chunk: &Vec<u8>) -> (lines: Vec<Vec<u8>>)
        ensures
            line_views(lines@) == complete_lines(old(self)@ + chunk@),
            final(self)@ == unfinished(old(self)@ + chunk@),
    {
        append_bytes(&mut self.partial, chunk);
        let (lines, rest) = split_lines(&self.partial);
        self.partial = rest;
        lines
    }
}

/// The stream that `lines` make, each followed by a newline.
pub open spec fn joined(lines: Seq<Seq<u8>>) -> Seq<u8>
    decreases lines.len(),
{
    if lines.len() == 0 {
        Seq::empty()
    } else {
        joined(lines.drop_last()) + lines.last() + seq![NEWLINE]
    }
}

/// Joining a list of lines with one more line in front.
pub proof fn lemma_joined_front(first: Seq<u8>, lines: Seq<Seq<u8>>)
    ensures
        joined(seq![first] + lines) == first + seq![NEWLINE] + joined(lines),
    decreases lines.len(),
{
    let all = seq![first] + lines;
    if lines.len() == 0 {
        assert(all.drop_last() =~= Seq::<Seq<u8>>::empty());
        assert(all.last() == first);
        assert(joined(all.drop_last()) =~= Seq::<u8>::empty());
        assert(joined(lines) =~= Seq::<u8>::empty());
        assert(joined(all) =~= first + seq![NEWLINE] + joined(lines));
    } else {
        assert(all.drop_last() =~= seq![first] + lines.drop_last());
        assert(all.last() == lines.last());
        lemma_joined_front(first, lines.drop_last());
        assert(joined(all) =~= first + seq![NEWLINE] + joined(lines));
    }
}

/// Cutting a stream into lines loses and adds nothing: the complete lines,
/// each followed by a newline, and then the unfinished rest, are the stream;
/// and no line holds a newline, nor does the rest.
pub proof fn lemma_lines_rebuild(buf: Seq<u8>)
    ensures
        joined(complete_lines(buf)) + unfinished(buf) == buf,
        forall|i: int|
            0 <= i < complete_lines(buf).len() ==> !(#[trigger] complete_lines(buf)[i]).contains(
                NEWLINE,
            ),
        !unfinished(buf).contains(NEWLINE),
    decreases buf.len(),
{
    let k = line_end(buf, buf.len() as int);
    lemma_line_end(buf, buf.len() as int);
    if 0 <= k < buf.len() {
        let tail = buf.skip(k + 1);
        lemma_lines_rebuild(tail);
        let rest = complete_lines(tail);
        let all = complete_lines(buf);
        lemma_joined_front(buf.take(k), rest);
        assert(all =~= seq![buf.take(k)] + rest);
        assert(buf.take(k) + seq![NEWLINE] + (joined(rest) + unfinished(tail)) =~= buf);
        assert(buf.take(k) + seq![NEWLINE] + joined(rest) + unfinished(tail) =~= buf.take(k)
            + seq![NEWLINE] + (joined(rest) + unfinished(tail)));
        assert forall|i: int| 0 <= i < all.len() implies !(#[trigger] all[i]).contains(
            NEWLINE,
        ) by {
            if i > 0 {
                assert(all[i] == rest[i - 1]);
            }
        }
    } else {
        assert(joined(complete_lines(buf)) + unfinished(buf) =~= buf);
    }
}

} // verus!
