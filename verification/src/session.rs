//! The check that what arrived is what was sent. Before the data the sending side sends
//! one hash of everything that will follow and a list of the files; the receiving side
//! hashes what it stores in the same way, compares at the end, and gives the outcome
//! when asked.
use crate::outside;
use crate::outside::TransferHash;
use crate::text;
use crate::transfer;
use vstd::prelude::*;
use vstd::utf8::*;

verus! {

/// Under this name the list is written. The colon keeps it apart from files, which
/// are not accepted under such a name.
pub const MANIFEST_NAME: &'static str = "tftp:manifest:blake3";

/// Under this name the outcome is read.
pub const RESULT_NAME: &'static str = "tftp:result";

/// The list may be this long.
pub const MANIFEST_MAX: usize = 67_108_864;

/// A file of the list.
#[derive(Debug)]
pub struct Listed {
    pub name: String,
    pub size: u64,
}

impl View for Listed {
    type V = (Seq<char>, u64);

    open spec fn view(&self) -> (Seq<char>, u64) {
        (self.name@, self.size)
    }
}

/// Names and sizes of a list.
pub open spec fn listed(v: Seq<Listed>) -> Seq<(Seq<char>, u64)> {
    v.map_values(|l: Listed| l@)
}

// ---------------------------------------------------------------- what is hashed
/// A 64-bit number, high byte first.
pub open spec fn be64(x: u64) -> Seq<u8> {
    seq![
        (x / 0x100_0000_0000_0000) as u8,
        ((x / 0x1_0000_0000_0000) % 256) as u8,
        ((x / 0x100_0000_0000) % 256) as u8,
        ((x / 0x1_0000_0000) % 256) as u8,
        ((x / 0x100_0000) % 256) as u8,
        ((x / 0x1_0000) % 256) as u8,
        ((x / 0x100) % 256) as u8,
        (x % 256) as u8,
    ]
}

/// What precedes the contents of a file in the hash: its name, then a zero byte.
pub open spec fn feed_name(name: Seq<char>) -> Seq<u8> {
    encode_utf8(name) + seq![0u8]
}

/// What a file adds to the hash: its name, a zero byte, its contents, its size.
pub open spec fn feed_file(name: Seq<char>, contents: Seq<u8>) -> Seq<u8> {
    feed_name(name) + contents + be64(transfer::counted(0, contents.len()))
}

/// What several files add to the hash, one after another.
pub open spec fn feed_all(files: Seq<(Seq<char>, Seq<u8>)>) -> Seq<u8>
    decreases files.len(),
{
    if files.len() == 0 {
        Seq::empty()
    } else {
        feed_all(files.drop_last()) + feed_file(files.last().0, files.last().1)
    }
}

fn be64_bytes(x: u64) -> (r: [u8; 8])
    ensures
        r@ == be64(x),
{
    let r: [u8; 8] = [
        (x / 0x100_0000_0000_0000) as u8,
        ((x / 0x1_0000_0000_0000) % 256) as u8,
        ((x / 0x100_0000_0000) % 256) as u8,
        ((x / 0x1_0000_0000) % 256) as u8,
        ((x / 0x100_0000) % 256) as u8,
        ((x / 0x1_0000) % 256) as u8,
        ((x / 0x100) % 256) as u8,
        (x % 256) as u8,
    ];
    assert(r@ =~= be64(x));
    r
}

fn hash_name(h: &mut TransferHash, name: &str)
    ensures
        final(h)@ == old(h)@ + feed_name(name@),
{
    h.update(name.as_bytes());
    h.update(&[0u8]);
    assert(h@ =~= old(h)@ + feed_name(name@));
}

/// A file on its way into the hash.
pub struct Feeding {
    hash: TransferHash,
    size: u64,
}

impl Feeding {
    /// The bytes hashed so far.
    pub closed spec fn fed(&self) -> Seq<u8> {
        self.hash@
    }

    /// How much of the file has been read, modulo 2^64.
    pub closed spec fn read(&self) -> u64 {
        self.size
    }
}

/// The hash of everything that is to be sent.
pub struct Hashing {
    hash: TransferHash,
}

impl View for Hashing {
    type V = Seq<u8>;

    /// The bytes hashed so far.
    closed spec fn view(&self) -> Seq<u8> {
        self.hash@
    }
}

impl Hashing {
    /// Nothing has been hashed.
    pub fn new() -> (r: Hashing)
        ensures
            r@ == Seq::<u8>::empty(),
    {
        Hashing { hash: TransferHash::new() }
    }

    /// Begins a file.
    pub fn feed_reader(self, name: &str) -> (r: Feeding)
        ensures
            r.fed() == self@ + feed_name(name@),
            r.read() == 0,
    {
        let mut hash = self.hash;
        hash_name(&mut hash, name);
        Feeding { hash, size: 0 }
    }

    /// The hash of all that was read, as hexadecimal digits.
    pub fn hex(&self) -> (r: String)
        ensures
            r@ == outside::blake3_hex(self@),
            is_hash(r@),
    {
        self.hash.hex()
    }
}

impl Feeding {
    /// Takes the next piece of the file.
    pub fn chunk(&mut self, bytes: &[u8])
        ensures
            final(self).fed() == old(self).fed() + bytes@,
            final(self).read() == transfer::counted(old(self).read(), bytes@.len()),
    {
        self.hash.update(bytes);
        self.size = transfer::count(self.size, bytes.len());
    }

    /// The file ends: its size is hashed too. The hash and the size.
    pub fn finish(self) -> (r: (Hashing, u64))
        ensures
            r.0@ == self.fed() + be64(self.read()),
            r.1 == self.read(),
    {
        let mut hash = self.hash;
        hash.update(&be64_bytes(self.size));
        (Hashing { hash }, self.size)
    }
}

/// Feeding a file piece by piece hashes the same as feeding it whole: a piece after the
/// pieces before it counts as one longer piece.
pub proof fn law_feeding_pieces(before: Seq<u8>, name: Seq<char>, a: Seq<u8>, b: Seq<u8>)
    ensures
        before + feed_name(name) + a + b == before + feed_name(name) + (a + b),
        transfer::counted(transfer::counted(0, a.len()), b.len()) == transfer::counted(
            0,
            (a + b).len(),
        ),
        before + feed_name(name) + a + be64(transfer::counted(0, a.len())) == before + feed_file(
            name,
            a,
        ),
{
    assert(before + feed_name(name) + a + b =~= before + feed_name(name) + (a + b));
    assert(before + feed_name(name) + a + be64(transfer::counted(0, a.len())) =~= before
        + feed_file(name, a));
}

// ---------------------------------------------------------------- the list
/// Whether `c` is a hexadecimal digit, in either case.
pub open spec fn is_hex_digit(c: char) -> bool {
    '0' <= c <= '9' || 'a' <= c <= 'f' || 'A' <= c <= 'F'
}

/// Whether `s` is a hash as it is written: 64 lower-case hexadecimal digits.
pub open spec fn is_hash(s: Seq<char>) -> bool {
    s.len() == 64 && forall|i: int| 0 <= i < 64 ==> outside::is_lower_hex(#[trigger] s[i])
}

/// The line of a file in the list: size, a space, name.
pub open spec fn list_line(size: u64, name: Seq<char>) -> Seq<char> {
    text::dec(size as nat) + " "@ + name + "\n"@
}

/// The lines of several files.
pub open spec fn list_lines(files: Seq<(Seq<char>, u64)>) -> Seq<char>
    decreases files.len(),
{
    if files.len() == 0 {
        Seq::empty()
    } else {
        list_lines(files.drop_last()) + list_line(files.last().1, files.last().0)
    }
}

/// The list as it is sent: the hash on a line of its own, then a line for each file.
pub open spec fn manifest_text(hash: Seq<char>, files: Seq<(Seq<char>, u64)>) -> Seq<char> {
    hash + "\n"@ + list_lines(files)
}

/// Appends the line of a file.
pub fn push_list_line(list: &mut String, size: u64, name: &str)
    ensures
        final(list)@ == old(list)@ + list_line(size, name@),
{
    text::push_dec(list, size);
    list.append(" ");
    list.append(name);
    list.append("\n");
    assert(list@ =~= old(list)@ + list_line(size, name@));
}

/// Whether a name can stand in the list: it must not break its line.
pub open spec fn listable(name: Seq<char>) -> bool {
    !name.contains('\n') && !name.contains('\r')
}

/// Size and name of one line of the list.
pub open spec fn line_entry(line: Seq<char>) -> Option<(Seq<char>, u64)> {
    let i = text::find(line, ' ') as int;
    if i >= line.len() {
        None
    } else {
        match text::number(line.take(i), u64::MAX as nat) {
            Some(n) => Some((line.skip(i + 1), n as u64)),
            None => None,
        }
    }
}

/// The files that the lines of a list name; nothing if a line makes no sense.
pub open spec fn entries(lines: Seq<Seq<char>>) -> Option<Seq<(Seq<char>, u64)>>
    decreases lines.len(),
{
    if lines.len() == 0 {
        Some(Seq::empty())
    } else {
        match (entries(lines.drop_last()), line_entry(lines.last())) {
            (Some(v), Some(e)) => Some(v.push(e)),
            _ => None,
        }
    }
}

/// Hash and files of a list, where `hash` is its first line, trimmed and in lower case.
pub open spec fn manifest_of(lines: Seq<Seq<char>>, hash: Seq<char>) -> Option<
    (Seq<char>, Seq<(Seq<char>, u64)>),
> {
    if lines.len() == 0 || hash.len() != 64 || !(forall|i: int|
        0 <= i < 64 ==> is_hex_digit(#[trigger] hash[i])) {
        None
    } else {
        match entries(lines.skip(1)) {
            Some(files) => if files.len() == 0 {
                None
            } else {
                Some((hash, files))
            },
            None => None,
        }
    }
}

// ---------------------------------------------------------------- the session
/// The check on the receiving side: what is expected, what has come so far. The files
/// come in the order of the list.
pub struct Session {
    expected: String,
    files: Vec<Listed>,
    next: usize,
    hash: TransferHash,
    errors: Vec<String>,
    verdict: Option<Result<(), String>>,
}

#[verifier::ext_equal]
pub struct SessionView {
    /// The hash that was announced.
    pub expected: Seq<char>,
    pub files: Seq<(Seq<char>, u64)>,
    /// How many files of the list have come.
    pub next: nat,
    /// The bytes hashed so far.
    pub fed: Seq<u8>,
    pub errors: Seq<Seq<char>>,
    /// The outcome, once the last file of the list has come.
    pub verdict: Option<Result<(), Seq<char>>>,
}

/// The text of an outcome.
pub open spec fn verdict_view(v: Option<Result<(), String>>) -> Option<Result<(), Seq<char>>> {
    match v {
        None => None,
        Some(Ok(_)) => Some(Ok(())),
        Some(Err(m)) => Some(Err(m@)),
    }
}

impl View for Session {
    type V = SessionView;

    closed spec fn view(&self) -> SessionView {
        SessionView {
            expected: self.expected@,
            files: listed(self.files@),
            next: self.next as nat,
            fed: self.hash@,
            errors: text::texts(self.errors@),
            verdict: verdict_view(self.verdict),
        }
    }
}

/// Whether an outcome is a success.
pub open spec fn passed(v: Option<Result<(), Seq<char>>>) -> bool {
    v matches Some(Ok(_))
}

/// A session in which nothing has come yet.
pub open spec fn fresh(expected: Seq<char>, files: Seq<(Seq<char>, u64)>) -> SessionView {
    SessionView {
        expected,
        files,
        next: 0,
        fed: Seq::empty(),
        errors: Seq::empty(),
        verdict: None,
    }
}

/// A file of this name is about to come. If it is the next of the list, its contents
/// are to be hashed; if not, it stays out of the hash and the check cannot succeed.
pub open spec fn started(s: SessionView, name: Seq<char>) -> (
    SessionView,
    Result<(), Seq<char>>,
) {
    if s.next < s.files.len() && s.files[s.next as int].0 == name {
        (SessionView { fed: s.fed + feed_name(name), ..s }, Ok(()))
    } else {
        let m = if s.next < s.files.len() {
            name + ": получен не в том порядке (ожидался "@ + s.files[s.next as int].0 + ")"@
        } else {
            name + ": этого файла нет в списке отправителя"@
        };
        (SessionView { errors: s.errors.push(m), ..s }, Err(m))
    }
}

/// The outcome when all files have come and `got` is the hash of what was stored.
pub open spec fn verdict_of(
    errors: Seq<Seq<char>>,
    expected: Seq<char>,
    got: Seq<char>,
) -> Result<(), Seq<char>> {
    if errors.len() > 0 {
        Err(text::joined(errors, "; "@))
    } else if got != expected {
        Err(
            "контрольная сумма всей передачи не совпала (ожидалась "@ + text::head(expected, 8)
                + "…, получена "@ + text::head(got, 8) + "…)"@,
        )
    } else {
        Ok(())
    }
}

/// A complaint about the size of a file.
pub open spec fn size_problem(name: Seq<char>, size: u64, want: u64) -> Seq<char> {
    name + ": размер не совпал ("@ + text::dec(size as nat) + " байт вместо "@ + text::dec(
        want as nat,
    ) + ")"@
}

/// A file has come whole: its size is hashed and compared, if it is one of the list.
/// After the last file of the list comes the outcome.
pub open spec fn finished(s: SessionView, name: Seq<char>, fed: bool, size: u64) -> (
    SessionView,
    Option<Seq<char>>,
) {
    let want = s.files[s.next as int].1;
    let problem = if fed && size != want {
        Some(size_problem(name, size, want))
    } else {
        None
    };
    let t = SessionView {
        fed: if fed {
            s.fed + be64(size)
        } else {
            s.fed
        },
        next: if fed {
            s.next + 1
        } else {
            s.next
        },
        errors: match problem {
            Some(p) => s.errors.push(p),
            None => s.errors,
        },
        ..s
    };
    if t.next == t.files.len() && t.verdict is None {
        (
            SessionView {
                verdict: Some(verdict_of(t.errors, t.expected, outside::blake3_hex(t.fed))),
                ..t
            },
            problem,
        )
    } else {
        (t, problem)
    }
}

/// The transfer of a file broke off: the hash is incomplete, the check cannot succeed.
pub open spec fn aborted(s: SessionView, name: Seq<char>, why: Seq<char>) -> SessionView {
    SessionView { errors: s.errors.push(name + ": приём прерван ("@ + why + ")"@), ..s }
}

/// The answer to the question how the check ended.
pub open spec fn report(s: SessionView) -> Seq<char> {
    match s.verdict {
        Some(Ok(_)) => "OK\n"@ + text::dec(s.files.len()) + "\n"@,
        Some(Err(m)) => "FAIL\n"@ + m + "\n"@,
        None => "FAIL\n"@ + (if text::joined(s.errors, "; "@).len() == 0 {
            Seq::empty()
        } else {
            text::joined(s.errors, "; "@) + "; "@
        }) + "получены не все файлы ("@ + text::dec(s.next) + " из "@ + text::dec(s.files.len())
            + ")\n"@,
    }
}

/// The sum of the sizes of the first `n` files, modulo 2^64.
pub open spec fn size_sum(files: Seq<(Seq<char>, u64)>, n: int) -> u64
    decreases n,
{
    if n <= 0 {
        0
    } else {
        transfer::counted(size_sum(files, n - 1), files[n - 1].1 as nat)
    }
}

/// Adds up the sizes of the first `n` files.
fn sum_sizes(files: &Vec<Listed>, n: usize) -> (r: u64)
    requires
        n <= files.len(),
    ensures
        r == size_sum(listed(files@), n as int),
{
    let mut sum: u64 = 0;
    let mut i: usize = 0;
    while i < n
        invariant
            i <= n <= files.len(),
            sum == size_sum(listed(files@), i as int),
        decreases n - i,
    {
        sum = sum.wrapping_add(files[i].size);
        i = i + 1;
    }
    sum
}

/// The outcome when all files have come, from the complaints, the hash that was
/// announced and the hash of what was stored.
pub fn judge(errors: &Vec<String>, expected: &str, got: &str) -> (r: Result<(), String>)
    ensures
        verdict_view(Some(r)) == Some(verdict_of(text::texts(errors@), expected@, got@)),
        r is Ok <==> errors@.len() == 0 && expected@ == got@,
{
    if errors.len() > 0 {
        return Err(text::join(errors, "; "));
    }
    if !text::same_text(got, expected) {
        let mut m = "контрольная сумма всей передачи не совпала (ожидалась ".to_owned();
        m.append(short(expected).as_str());
        m.append("…, получена ");
        m.append(short(got).as_str());
        m.append("…)");
        return Err(m);
    }
    Ok(())
}

/// The beginning of a hash, enough to tell it from others.
pub fn short(hex: &str) -> (r: String)
    ensures
        r@ == text::head(hex@, 8),
{
    text::head_text(hex, 8)
}

fn size_problem_text(name: &str, size: u64, want: u64) -> (m: String)
    ensures
        m@ == size_problem(name@, size, want),
{
    let mut m = name.to_owned();
    m.append(": размер не совпал (");
    text::push_dec(&mut m, size);
    m.append(" байт вместо ");
    text::push_dec(&mut m, want);
    m.append(")");
    m
}

impl Session {
    /// Not more files have come than the list holds.
    pub open spec fn wf(&self) -> bool {
        self@.next <= self@.files.len()
    }

    /// A file of this name is about to come. `Ok`: its contents are to be handed to
    /// `content`. `Err`: it is not the next of the list.
    pub fn start_file(&mut self, name: &str) -> (r: Result<(), String>)
        requires
            old(self).wf(),
        ensures
            final(self).wf(),
            final(self)@ == started(old(self)@, name@).0,
            verdict_view(Some(r)) == Some(started(old(self)@, name@).1),
    {
        let ghost s = self@;
        if self.next < self.files.len() {
            assert(s.files[s.next as int] == self.files@[self.next as int]@);
            if text::same_text(self.files[self.next].name.as_str(), name) {
                hash_name(&mut self.hash, name);
                return Ok(());
            }
            let mut m = name.to_owned();
            m.append(": получен не в том порядке (ожидался ");
            m.append(self.files[self.next].name.as_str());
            m.append(")");
            text::push_text(&mut self.errors, m.clone());
            return Err(m);
        }
        let mut m = name.to_owned();
        m.append(": этого файла нет в списке отправителя");
        text::push_text(&mut self.errors, m.clone());
        Err(m)
    }

    /// The next piece of the file that `start_file` let in.
    pub fn content(&mut self, bytes: &[u8])
        requires
            old(self).wf(),
        ensures
            final(self).wf(),
            final(self)@ == (SessionView { fed: old(self)@.fed + bytes@, ..old(self)@ }),
    {
        self.hash.update(bytes);
    }

    /// All files have come: the outcome.
    fn conclude(&mut self)
        requires
            old(self).wf(),
        ensures
            final(self).wf(),
            final(self)@ == (SessionView {
                verdict: Some(
                    verdict_of(
                        old(self)@.errors,
                        old(self)@.expected,
                        outside::blake3_hex(old(self)@.fed),
                    ),
                ),
                ..old(self)@
            }),
    {
        let got = self.hash.hex();
        let v = judge(&self.errors, self.expected.as_str(), got.as_str());
        self.verdict = Some(v);
    }

    /// The next file of the list has come whole: its size is hashed and compared.
    fn close_file(&mut self, name: &str, size: u64) -> (r: Option<String>)
        requires
            old(self).wf(),
            old(self)@.next < old(self)@.files.len(),
        ensures
            final(self).wf(),
            final(self)@.expected == old(self)@.expected,
            final(self)@.files == old(self)@.files,
            final(self)@.next == old(self)@.next + 1,
            final(self)@.fed == old(self)@.fed + be64(size),
            final(self)@.verdict == old(self)@.verdict,
            ({
                let want = old(self)@.files[old(self)@.next as int].1;
                if size == want {
                    r is None && final(self)@.errors == old(self)@.errors
                } else {
                    &&& r is Some
                    &&& r->0@ == size_problem(name@, size, want)
                    &&& final(self)@.errors == old(self)@.errors.push(r->0@)
                }
            }),
    {
        let ghost s = self@;
        assert(self.next < self.files.len());
        assert(s.files[s.next as int] == self.files@[self.next as int]@);
        let size_bytes = be64_bytes(size);
        self.hash.update(&size_bytes);
        let want: u64 = self.files[self.next].size;
        self.next = self.next + 1;
        if size == want {
            return None;
        }
        let m = size_problem_text(name, size, want);
        text::push_text(&mut self.errors, m.clone());
        Some(m)
    }

    /// A file has come whole. `fed` says whether `start_file` let it in; `size` is how
    /// much was stored. The complaint about it, if any.
    pub fn finish_file(&mut self, name: &str, fed: bool, size: u64) -> (r: Option<String>)
        requires
            old(self).wf(),
            fed ==> old(self)@.next < old(self)@.files.len(),
        ensures
            final(self).wf(),
            final(self)@ == finished(old(self)@, name@, fed, size).0,
            match r {
                Some(p) => finished(old(self)@, name@, fed, size).1 == Some(p@),
                None => finished(old(self)@, name@, fed, size).1 is None,
            },
    {
        let problem = if fed {
            self.close_file(name, size)
        } else {
            None
        };
        if self.next == self.files.len() && self.verdict.is_none() {
            self.conclude();
        }
        problem
    }

    /// The transfer of a file broke off.
    pub fn abort_file(&mut self, name: &str, why: &str)
        requires
            old(self).wf(),
        ensures
            final(self).wf(),
            final(self)@ == aborted(old(self)@, name@, why@),
    {
        let mut m = name.to_owned();
        m.append(": приём прерван (");
        m.append(why);
        m.append(")");
        text::push_text(&mut self.errors, m);
    }

    /// The answer to the question how the check ended.
    pub fn result_body(&self) -> (r: String)
        requires
            self.wf(),
        ensures
            r@ == report(self@),
    {
        match &self.verdict {
            Some(Ok(_)) => {
                let mut m = "OK\n".to_owned();
                text::push_dec(&mut m, self.files.len() as u64);
                m.append("\n");
                m
            },
            Some(Err(e)) => {
                let mut m = "FAIL\n".to_owned();
                m.append(e.as_str());
                m.append("\n");
                m
            },
            None => {
                let mut m = "FAIL\n".to_owned();
                let all = text::join(&self.errors, "; ");
                if all.as_str().as_bytes().len() > 0 {
                    m.append(all.as_str());
                    m.append("; ");
                    assert(m@ =~= "FAIL\n"@ + (all@ + "; "@));
                } else {
                    assert(m@ =~= "FAIL\n"@ + Seq::<char>::empty());
                }
                m.append("получены не все файлы (");
                text::push_dec(&mut m, self.next as u64);
                m.append(" из ");
                text::push_dec(&mut m, self.files.len() as u64);
                m.append(")\n");
                m
            },
        }
    }

    /// A session in which nothing has come yet.
    fn new(expected: String, files: Vec<Listed>) -> (r: Session)
        ensures
            r.wf(),
            r@ == fresh(expected@, listed(files@)),
    {
        let r = Session {
            expected,
            files,
            next: 0,
            hash: TransferHash::new(),
            errors: Vec::new(),
            verdict: None,
        };
        assert(r@ =~= fresh(expected@, listed(files@)));
        r
    }

    /// How much the files that have come and all files of the list amount to.
    pub fn sizes(&self) -> (r: (u64, u64))
        requires
            self.wf(),
        ensures
            r.0 == size_sum(self@.files, self@.next as int),
            r.1 == size_sum(self@.files, self@.files.len() as int),
    {
        (sum_sizes(&self.files, self.next), sum_sizes(&self.files, self.files.len()))
    }

    /// How many files the list holds.
    pub fn file_count(&self) -> (r: usize)
        ensures
            r == self@.files.len(),
    {
        self.files.len()
    }

    /// The hash that was announced.
    pub fn expected(&self) -> (r: &str)
        ensures
            r@ == self@.expected,
    {
        self.expected.as_str()
    }

    /// Whether the outcome is known.
    pub fn decided(&self) -> (r: bool)
        ensures
            r == (self@.verdict is Some),
    {
        self.verdict.is_some()
    }

    /// Whether the check has succeeded.
    pub fn passed(&self) -> (r: bool)
        ensures
            r == passed(self@.verdict),
    {
        match &self.verdict {
            Some(Ok(_)) => true,
            _ => false,
        }
    }

    /// The outcome, if it is known.
    pub fn outcome(&self) -> (r: Option<Result<(), String>>)
        ensures
            verdict_view(r) == self@.verdict,
    {
        match &self.verdict {
            None => None,
            Some(Ok(_)) => Some(Ok(())),
            Some(Err(m)) => Some(Err(m.clone())),
        }
    }
}

// ---------------------------------------------------------------- reading the list
fn all_hex(v: &Vec<char>) -> (r: bool)
    ensures
        r == (forall|i: int| 0 <= i < v@.len() ==> is_hex_digit(#[trigger] v@[i])),
{
    let mut i: usize = 0;
    while i < v.len()
        invariant
            i <= v.len(),
            forall|j: int| 0 <= j < i ==> is_hex_digit(#[trigger] v@[j]),
        decreases v.len() - i,
    {
        let c: char = v[i];
        if !(('0' <= c && c <= '9') || ('a' <= c && c <= 'f') || ('A' <= c && c <= 'F')) {
            assert(!is_hex_digit(v@[i as int]));
            return false;
        }
        i = i + 1;
    }
    true
}

/// Reads one line of the list.
fn parse_line(line: &str) -> (r: Option<Listed>)
    ensures
        match r {
            Some(l) => line_entry(line@) == Some(l@),
            None => line_entry(line@) is None,
        },
{
    let v = text::chars_of(line);
    let i: usize = text::find_char(&v, ' ');
    if i >= v.len() {
        return None;
    }
    let digits = text::chars_range(&v, 0, i);
    assert(digits@ =~= line@.take(i as int));
    match text::parse_number(&digits, u64::MAX) {
        None => None,
        Some(size) => {
            let name = text::text_range(&v, i + 1, v.len());
            assert(name@ =~= line@.skip(i + 1));
            Some(Listed { name, size })
        },
    }
}

/// Reads the lines of the list behind the first.
fn parse_lines(lines: &Vec<String>) -> (r: Option<Vec<Listed>>)
    requires
        lines.len() > 0,
    ensures
        match r {
            Some(v) => entries(text::texts(lines@).skip(1)) == Some(listed(v@)),
            None => entries(text::texts(lines@).skip(1)) is None,
        },
{
    let ghost all = text::texts(lines@).skip(1);
    let mut out: Vec<Listed> = Vec::new();
    let mut i: usize = 1;
    assert(listed(out@) =~= Seq::empty());
    while i < lines.len()
        invariant
            1 <= i <= lines.len(),
            all == text::texts(lines@).skip(1),
            entries(all.take(i - 1)) == Some(listed(out@)),
        decreases lines.len() - i,
    {
        let ghost before = out@;
        assert(all.take(i as int).drop_last() =~= all.take(i - 1));
        assert(all.take(i as int).last() == lines@[i as int]@);
        match parse_line(lines[i].as_str()) {
            None => {
                proof {
                    lemma_entries_prefix(all, i as int);
                }
                return None;
            },
            Some(l) => {
                out.push(l);
                assert(listed(out@) =~= listed(before).push(l@));
            },
        }
        i = i + 1;
    }
    assert(all.take(i - 1) =~= all);
    Some(out)
}

proof fn lemma_entries_prefix(lines: Seq<Seq<char>>, n: int)
    requires
        0 <= n <= lines.len(),
        entries(lines.take(n)) is None,
    ensures
        entries(lines) is None,
    decreases lines.len(),
{
    if n == lines.len() {
        assert(lines.take(n) =~= lines);
    } else {
        assert(lines.drop_last().take(n) =~= lines.take(n));
        lemma_entries_prefix(lines.drop_last(), n);
    }
}

/// Hash and files of a list, from its lines and its first line, trimmed and in lower case.
pub fn read_manifest(lines: &Vec<String>, hash: String) -> (r: Option<Session>)
    ensures
        match r {
            Some(s) => {
                &&& s.wf()
                &&& manifest_of(text::texts(lines@), hash@) == Some((s@.expected, s@.files))
                &&& s@ == fresh(s@.expected, s@.files)
            },
            None => manifest_of(text::texts(lines@), hash@) is None,
        },
{
    let digits = text::chars_of(hash.as_str());
    if lines.len() == 0 || digits.len() != 64 || !all_hex(&digits) {
        return None;
    }
    match parse_lines(lines) {
        None => None,
        Some(files) => {
            if files.len() == 0 {
                return None;
            }
            Some(Session::new(hash, files))
        },
    }
}

/// The view of an optional session.
pub open spec fn session_view(s: Option<Session>) -> Option<SessionView> {
    match s {
        Some(x) => Some(x@),
        None => None,
    }
}

/// The session that a list asks for; none if the list makes no sense.
pub open spec fn parsed(data: Seq<u8>) -> Option<SessionView> {
    let lines = text::lines(outside::utf8_lossy(data));
    let hash = outside::lowercase(text::trimmed(lines[0]));
    if lines.len() == 0 {
        None
    } else {
        match manifest_of(lines, hash) {
            Some((expected, files)) => Some(fresh(expected, files)),
            None => None,
        }
    }
}

/// Reads a list: the hash on the first line, then a line for each file.
/// A list that the sending side wrote is read back as it was written.
pub fn parse_manifest(data: &[u8]) -> (r: Option<Session>)
    ensures
        session_view(r) == parsed(data@),
        r matches Some(s) ==> s.wf(),
        forall|hash: Seq<char>, files: Seq<(Seq<char>, u64)>|
            is_manifest(hash, files) && data@ == encode_utf8(#[trigger] manifest_text(hash, files))
                ==> r is Some && r->0@ == fresh(hash, files),
{
    let all = outside::decode_lossy(data);
    let lines = text::split_lines(all.as_str());
    if lines.len() == 0 {
        proof {
            assert forall|hash: Seq<char>, files: Seq<(Seq<char>, u64)>|
                is_manifest(hash, files) && data@ == encode_utf8(
                    #[trigger] manifest_text(hash, files),
                ) implies false by {
                lemma_written_manifest(hash, files);
            }
        }
        return None;
    }
    let first = text::trim_text(lines[0].as_str());
    let hash = outside::to_lowercase(first.as_str());
    assert(text::texts(lines@)[0] == lines@[0]@);
    proof {
        assert forall|h: Seq<char>, files: Seq<(Seq<char>, u64)>|
            is_manifest(h, files) && data@ == encode_utf8(
                #[trigger] manifest_text(h, files),
            ) implies manifest_of(text::texts(lines@), hash@) == Some((h, files)) by {
            lemma_written_manifest(h, files);
            lemma_hash(h);
            assert(first@ == h);
            assert(hash@ == h);
        }
    }
    read_manifest(&lines, hash)
}

// ---------------------------------------------------------------- laws
/// Whether hash and files can be written as a list that can be read back: there is at
/// least one file, and no name breaks its line.
pub open spec fn is_manifest(hash: Seq<char>, files: Seq<(Seq<char>, u64)>) -> bool {
    &&& is_hash(hash)
    &&& files.len() > 0
    &&& forall|i: int| 0 <= i < files.len() ==> listable((#[trigger] files[i]).0)
}

proof fn lemma_hash(h: Seq<char>)
    requires
        is_hash(h),
    ensures
        is_ascii_chars(h),
        text::trimmed(h) == h,
        h.map_values(|c: char| outside::ascii_lower(c)) == h,
        !h.contains('\n'),
        !h.contains('\r'),
        forall|i: int| 0 <= i < 64 ==> is_hex_digit(#[trigger] h[i]),
{
    assert(outside::is_lower_hex(h[0]));
    assert(outside::is_lower_hex(h[63]));
    text::lemma_trimmed_fixed(h);
    assert(h.map_values(|c: char| outside::ascii_lower(c)) =~= h);
}

proof fn lemma_lines_concat(a: Seq<char>, b: Seq<char>)
    requires
        a.len() == 0 || a.last() == '\n',
    ensures
        text::lines(a + b) == text::lines(a) + text::lines(b),
    decreases a.len(),
{
    if a.len() == 0 {
        assert(a + b =~= b);
        assert(text::lines(a) + text::lines(b) =~= text::lines(b));
    } else {
        text::lemma_find(a, '\n');
        let i = text::find(a, '\n') as int;
        assert(i < a.len()) by {
            if i >= a.len() {
                assert(a[a.len() - 1] != '\n');
            }
        }
        let t = a + b;
        text::lemma_find_is(t, '\n', i);
        assert(t.take(i) =~= a.take(i));
        let rest = a.skip(i + 1);
        assert(t.skip(i + 1) =~= rest + b);
        lemma_lines_concat(rest, b);
        let head = seq![text::without_cr(a.take(i))];
        assert(head + (text::lines(rest) + text::lines(b)) =~= (head + text::lines(rest))
            + text::lines(b));
    }
}

/// A line of the list without its end.
pub open spec fn bare_line(size: u64, name: Seq<char>) -> Seq<char> {
    text::dec(size as nat) + " "@ + name
}

proof fn lemma_line(size: u64, name: Seq<char>)
    requires
        listable(name),
    ensures
        text::lines(list_line(size, name)) == seq![bare_line(size, name)],
        line_entry(bare_line(size, name)) == Some((name, size)),
        list_line(size, name).len() > 0,
        list_line(size, name).last() == '\n',
{
    reveal_strlit(" ");
    reveal_strlit("\n");
    let d = text::dec(size as nat);
    let line = bare_line(size, name);
    text::lemma_dec(size as nat);
    text::law_number_of_dec(size as nat, u64::MAX as nat);
    assert forall|i: int| 0 <= i < line.len() implies line[i] != '\n' && line[i] != '\r' by {
        if i < d.len() {
            assert(text::is_digit(d[i]));
        } else if i > d.len() {
            assert(name.contains(name[i - d.len() - 1]));
        }
    }
    assert(list_line(size, name) =~= line + seq!['\n'] + Seq::<char>::empty());
    text::lemma_first_line(line, Seq::empty());
    assert(text::lines(Seq::<char>::empty()) =~= Seq::<Seq<char>>::empty());
    assert(seq![line] + Seq::<Seq<char>>::empty() =~= seq![line]);
    assert forall|j: int| 0 <= j < d.len() implies line[j] != ' ' by {
        assert(text::is_digit(d[j]));
    }
    text::lemma_find_is(line, ' ', d.len() as int);
    assert(line.take(d.len() as int) =~= d);
    assert(line.skip(d.len() as int + 1) =~= name);
}

proof fn lemma_list(files: Seq<(Seq<char>, u64)>)
    requires
        forall|i: int| 0 <= i < files.len() ==> listable((#[trigger] files[i]).0),
    ensures
        list_lines(files).len() == 0 || list_lines(files).last() == '\n',
        entries(text::lines(list_lines(files))) == Some(files),
    decreases files.len(),
{
    if files.len() == 0 {
        assert(text::lines(list_lines(files)) =~= Seq::<Seq<char>>::empty());
        assert(files =~= Seq::empty());
    } else {
        let rest = files.drop_last();
        let (name, size) = files.last();
        assert(listable(files[files.len() - 1].0));
        assert forall|i: int| 0 <= i < rest.len() implies listable((#[trigger] rest[i]).0) by {
            assert(rest[i] == files[i]);
        }
        lemma_list(rest);
        lemma_line(size, name);
        lemma_lines_concat(list_lines(rest), list_line(size, name));
        let all = text::lines(list_lines(files));
        assert(all.drop_last() =~= text::lines(list_lines(rest)));
        assert(rest.push((name, size)) =~= files);
    }
}

proof fn lemma_written_manifest(hash: Seq<char>, files: Seq<(Seq<char>, u64)>)
    requires
        is_manifest(hash, files),
    ensures
        text::lines(manifest_text(hash, files)).len() > 0,
        text::lines(manifest_text(hash, files))[0] == hash,
        manifest_of(text::lines(manifest_text(hash, files)), hash) == Some((hash, files)),
        valid_utf8(encode_utf8(manifest_text(hash, files))),
        decode_utf8(encode_utf8(manifest_text(hash, files))) == manifest_text(hash, files),
{
    reveal_strlit("\n");
    let t = manifest_text(hash, files);
    lemma_hash(hash);
    lemma_list(files);
    assert(t =~= hash + seq!['\n'] + list_lines(files));
    text::lemma_first_line(hash, list_lines(files));
    let all = text::lines(t);
    assert(all.skip(1) =~= text::lines(list_lines(files)));
    encode_utf8_valid_utf8(t);
    encode_utf8_decode_utf8(t);
}

/// The list that is sent can be read back: where no name breaks its line, the lines of the
/// list give the hash and the files that it was made of.
pub proof fn law_manifest_roundtrip(hash: Seq<char>, files: Seq<(Seq<char>, u64)>)
    requires
        is_manifest(hash, files),
    ensures
        manifest_of(
            text::lines(decode_utf8(encode_utf8(manifest_text(hash, files)))),
            hash,
        ) == Some((hash, files)),
        text::trimmed(text::lines(manifest_text(hash, files))[0]) == hash,
{
    lemma_written_manifest(hash, files);
    lemma_hash(hash);
}

/// The session after a file of this name and contents has come whole.
pub open spec fn after_file(s: SessionView, name: Seq<char>, contents: Seq<u8>) -> SessionView {
    let (a, r) = started(s, name);
    let b = SessionView { fed: a.fed + contents, ..a };
    finished(
        if r is Ok {
            b
        } else {
            a
        },
        name,
        r is Ok,
        transfer::counted(0, contents.len()),
    ).0
}

/// The session after several files have come whole.
pub open spec fn after_files(s: SessionView, files: Seq<(Seq<char>, Seq<u8>)>) -> SessionView
    decreases files.len(),
{
    if files.len() == 0 {
        s
    } else {
        after_file(after_files(s, files.drop_last()), files.last().0, files.last().1)
    }
}

/// Names and sizes of files.
pub open spec fn list_of(files: Seq<(Seq<char>, Seq<u8>)>) -> Seq<(Seq<char>, u64)> {
    files.map_values(|f: (Seq<char>, Seq<u8>)| (f.0, transfer::counted(0, f.1.len())))
}

proof fn lemma_after_files(hash: Seq<char>, files: Seq<(Seq<char>, Seq<u8>)>, n: int)
    requires
        0 <= n <= files.len(),
        files.len() > 0,
    ensures
        ({
            let s = after_files(fresh(hash, list_of(files)), files.take(n));
            &&& s.expected == hash
            &&& s.files == list_of(files)
            &&& s.next == n
            &&& s.fed == feed_all(files.take(n))
            &&& s.errors == Seq::<Seq<char>>::empty()
            &&& n < files.len() ==> s.verdict is None
            &&& n == files.len() ==> s.verdict == Some(
                verdict_of(Seq::empty(), hash, outside::blake3_hex(feed_all(files))),
            )
        }),
    decreases n,
{
    let f0 = fresh(hash, list_of(files));
    if n > 0 {
        lemma_after_files(hash, files, n - 1);
        let now = files.take(n);
        assert(now.drop_last() =~= files.take(n - 1));
        let s = after_files(f0, files.take(n - 1));
        let (name, contents) = files[n - 1];
        assert(now.last() == files[n - 1]);
        assert(s.files[s.next as int] == list_of(files)[n - 1]);
        let b = SessionView { fed: s.fed + feed_name(name) + contents, ..s };
        assert(s.fed + feed_name(name) + contents + be64(transfer::counted(0, contents.len()))
            =~= feed_all(now));
        assert(files.take(files.len() as int) =~= files);
    } else {
        assert(files.take(0) =~= Seq::empty());
    }
}

/// If the files that come are the files of the list, in its order, with the contents that
/// the announced hash was made of, the check succeeds; and as long as the last of them has
/// not come, it is undecided.
pub proof fn law_intact_transfer_passes(files: Seq<(Seq<char>, Seq<u8>)>, n: int)
    requires
        files.len() > 0,
        0 <= n < files.len(),
    ensures
        ({
            let start = fresh(outside::blake3_hex(feed_all(files)), list_of(files));
            &&& after_files(start, files.take(n)).verdict is None
            &&& passed(after_files(start, files).verdict)
        }),
{
    let hash = outside::blake3_hex(feed_all(files));
    lemma_after_files(hash, files, n);
    lemma_after_files(hash, files, files.len() as int);
    assert(files.take(files.len() as int) =~= files);
}

/// If the files that come are those of the list but the hash of what came is not the
/// announced one, the check fails.
pub proof fn law_damage_is_detected(hash: Seq<char>, files: Seq<(Seq<char>, Seq<u8>)>)
    requires
        files.len() > 0,
        outside::blake3_hex(feed_all(files)) != hash,
    ensures
        after_files(fresh(hash, list_of(files)), files).verdict matches Some(Err(_)),
{
    lemma_after_files(hash, files, files.len() as int);
    assert(files.take(files.len() as int) =~= files);
}

/// Once there is a complaint, the check can no longer succeed: complaints stay, whatever
/// comes, and an outcome that is still to come is a failure. An outcome never changes.
pub proof fn law_complaints_stay(
    s: SessionView,
    name: Seq<char>,
    contents: Seq<u8>,
    fed: bool,
    size: u64,
    why: Seq<char>,
)
    requires
        s.errors.len() > 0,
    ensures
        started(s, name).0.errors.len() >= s.errors.len(),
        started(s, name).0.verdict == s.verdict,
        aborted(s, name, why).errors.len() > s.errors.len(),
        aborted(s, name, why).verdict == s.verdict,
        finished(s, name, fed, size).0.errors.len() >= s.errors.len(),
        s.verdict is Some ==> finished(s, name, fed, size).0.verdict == s.verdict,
        s.verdict is None ==> !passed(finished(s, name, fed, size).0.verdict),
{
}

/// A successful check is answered with `OK`, anything else with `FAIL`.
pub proof fn law_report_tells_the_outcome(s: SessionView)
    ensures
        passed(s.verdict) ==> text::begins(report(s), "OK\n"@),
        !passed(s.verdict) ==> text::begins(report(s), "FAIL\n"@),
{
    match s.verdict {
        Some(Ok(_)) => {
            assert(report(s).take("OK\n"@.len() as int) =~= "OK\n"@);
        },
        _ => {
            assert(report(s).take("FAIL\n"@.len() as int) =~= "FAIL\n"@);
        },
    }
}

// ---------------------------------------------------------------- a bounded buffer
/// Bytes that come from the network and are kept in memory, up to a limit.
pub struct LimitedBuf {
    pub data: Vec<u8>,
    pub max: usize,
}

impl LimitedBuf {
    /// Takes more bytes, all or none: what would pass the limit is refused.
    pub fn write(&mut self, b: &[u8]) -> (r: Result<usize, crate::wait::IoFailure>)
        ensures
            final(self).max == old(self).max,
            old(self).data@.len() + b@.len() <= old(self).max ==> r == Ok::<
                usize,
                crate::wait::IoFailure,
            >(b.len()) && final(self).data@ == old(self).data@ + b@,
            old(self).data@.len() + b@.len() > old(self).max ==> {
                &&& final(self).data@ == old(self).data@
                &&& r matches Err(e) && e.kind == crate::wait::IoKind::Other && e.text@
                    == "список хэшей слишком большой"@
            },
    {
        if b.len() > self.max || self.data.len() > self.max - b.len() {
            return Err(
                crate::wait::IoFailure {
                    kind: crate::wait::IoKind::Other,
                    text: "список хэшей слишком большой".to_owned(),
                },
            );
        }
        text::push_bytes(&mut self.data, b);
        Ok(b.len())
    }
}

// ---------------------------------------------------------------- what is hashed and listed
/// A size goes into the hash as eight bytes, the highest first.
pub proof fn law_size_in_eight_bytes(x: u64)
    ensures
        be64(x).len() == 8,
        x == be64(x)[0] * 0x100_0000_0000_0000 + be64(x)[1] * 0x1_0000_0000_0000 + be64(x)[2]
            * 0x100_0000_0000 + be64(x)[3] * 0x1_0000_0000 + be64(x)[4] * 0x100_0000 + be64(x)[5]
            * 0x1_0000 + be64(x)[6] * 0x100 + be64(x)[7],
{
    let y = x as int;
    assert(y / 0x100 / 0x100 == y / 0x1_0000);
    assert(y / 0x1_0000 / 0x100 == y / 0x100_0000);
    assert(y / 0x100_0000 / 0x100 == y / 0x1_0000_0000);
    assert(y / 0x1_0000_0000 / 0x100 == y / 0x100_0000_0000);
    assert(y / 0x100_0000_0000 / 0x100 == y / 0x1_0000_0000_0000);
    assert(y / 0x1_0000_0000_0000 / 0x100 == y / 0x100_0000_0000_0000);
}

/// Each file goes into the hash as its name, a zero, all its bytes and their number; the
/// files follow one another.
pub proof fn law_what_is_hashed(
    a: Seq<(Seq<char>, Seq<u8>)>,
    b: Seq<(Seq<char>, Seq<u8>)>,
    name: Seq<char>,
    contents: Seq<u8>,
)
    requires
        contents.len() <= u64::MAX,
    ensures
        feed_all(seq![(name, contents)]) == encode_utf8(name) + seq![0u8] + contents + be64(
            contents.len() as u64,
        ),
        feed_all(a + b) == feed_all(a) + feed_all(b),
        feed_all(Seq::empty()) == Seq::<u8>::empty(),
    decreases b.len(),
{
    let one = seq![(name, contents)];
    assert(one.drop_last() =~= Seq::<(Seq<char>, Seq<u8>)>::empty());
    assert(feed_all(one.drop_last()) =~= Seq::<u8>::empty());
    assert(feed_all(one) =~= encode_utf8(name) + seq![0u8] + contents + be64(
        contents.len() as u64,
    ));
    let s = a + b;
    if b.len() == 0 {
        assert(s =~= a);
        assert(feed_all(a) + feed_all(b) =~= feed_all(a));
    } else {
        assert(s.drop_last() =~= a + b.drop_last());
        assert(s.last() == b.last());
        law_what_is_hashed(a, b.drop_last(), name, contents);
        assert(feed_all(s) =~= feed_all(a) + feed_all(b));
    }
}

/// The list: the hash on a line of its own, then a line for each file with its size, a blank
/// and its name, in the order in which the files come. A name with a line break cannot stand
/// in it.
pub proof fn law_what_is_listed(
    hash: Seq<char>,
    a: Seq<(Seq<char>, u64)>,
    b: Seq<(Seq<char>, u64)>,
    name: Seq<char>,
    size: u64,
    contents: Seq<(Seq<char>, Seq<u8>)>,
    i: int,
)
    ensures
        manifest_text(hash, a) == hash + "\n"@ + list_lines(a),
        list_lines(seq![(name, size)]) == text::dec(size as nat) + " "@ + name + "\n"@,
        list_lines(a + b) == list_lines(a) + list_lines(b),
        list_lines(Seq::empty()) == Seq::<char>::empty(),
        listable(name) <==> forall|k: int|
            0 <= k < name.len() ==> #[trigger] name[k] != '\n' && name[k] != '\r',
        list_of(contents).len() == contents.len(),
        0 <= i < contents.len() && contents[i].1.len() <= u64::MAX ==> list_of(contents)[i] == (
            contents[i].0,
            contents[i].1.len() as u64,
        ),
    decreases b.len(),
{
    let one = seq![(name, size)];
    assert(one.drop_last() =~= Seq::<(Seq<char>, u64)>::empty());
    assert(list_lines(one.drop_last()) =~= Seq::<char>::empty());
    assert(list_lines(one) =~= text::dec(size as nat) + " "@ + name + "\n"@);
    let s = a + b;
    if b.len() == 0 {
        assert(s =~= a);
        assert(list_lines(a) + list_lines(b) =~= list_lines(a));
    } else {
        assert(s.drop_last() =~= a + b.drop_last());
        assert(s.last() == b.last());
        law_what_is_listed(hash, a, b.drop_last(), name, size, contents, i);
        assert(list_lines(s) =~= list_lines(a) + list_lines(b));
    }
    if name.contains('\n') {
        let k = choose|k: int| 0 <= k < name.len() && name[k] == '\n';
        assert(name[k] == '\n');
    }
    if name.contains('\r') {
        let k = choose|k: int| 0 <= k < name.len() && name[k] == '\r';
        assert(name[k] == '\r');
    }
}

/// A line of the list is read as a size, up to the first blank, and a name, which may hold
/// blanks. A line without a blank, or without a number before it, is no entry, and then the
/// list as a whole is none.
pub proof fn law_lists_are_read(
    size: Seq<char>,
    name: Seq<char>,
    a: Seq<Seq<char>>,
    b: Seq<Seq<char>>,
    line: Seq<char>,
)
    requires
        !size.contains(' '),
    ensures
        line_entry(size + seq![' '] + name) == match text::number(size, 0xffff_ffff_ffff_ffff) {
            Some(n) => Some((name, n as u64)),
            None => None,
        },
        line_entry(size) is None,
        entries(a + b) == match (entries(a), entries(b)) {
            (Some(v), Some(w)) => Some(v + w),
            _ => None,
        },
        entries(seq![line]) == match line_entry(line) {
            Some(e) => Some(seq![e]),
            None => None,
        },
        entries(Seq::empty()) == Some(Seq::<(Seq<char>, u64)>::empty()),
    decreases b.len(),
{
    let l = size + seq![' '] + name;
    text::law_first_place_is_found(size, ' ', name);
    assert(l.take(size.len() as int) =~= size);
    assert(l.skip(size.len() as int + 1) =~= name);
    let one = seq![line];
    assert(one.drop_last() =~= Seq::<Seq<char>>::empty());
    assert(entries(one.drop_last()) == Some(Seq::<(Seq<char>, u64)>::empty()));
    if let Some(e) = line_entry(line) {
        assert(Seq::<(Seq<char>, u64)>::empty().push(e) =~= seq![e]);
    }
    let s = a + b;
    if b.len() == 0 {
        assert(s =~= a);
        if entries(a) is Some {
            assert(entries(a)->0 + Seq::<(Seq<char>, u64)>::empty() =~= entries(a)->0);
        }
    } else {
        assert(s.drop_last() =~= a + b.drop_last());
        assert(s.last() == b.last());
        law_lists_are_read(size, name, a, b.drop_last(), line);
        if let (Some(v), Some(w)) = (entries(a), entries(b.drop_last())) {
            if let Some(e) = line_entry(b.last()) {
                assert((v + w).push(e) =~= v + w.push(e));
            }
        }
    }
}

/// A list is accepted if and only if its hash has 64 hexadecimal digits, all its lines can be
/// read, and there is a file in it. The check then starts at the first file, with nothing
/// hashed and nothing wrong.
pub proof fn law_lists_are_accepted(lines: Seq<Seq<char>>, hash: Seq<char>, data: Seq<u8>)
    ensures
        manifest_of(lines, hash) == match entries(lines.skip(1)) {
            Some(files) => if lines.len() > 0 && files.len() > 0 && hash.len() == 64 && (forall|i: int|
                0 <= i < 64 ==> '0' <= #[trigger] hash[i] <= '9' || 'a' <= hash[i] <= 'f' || 'A'
                    <= hash[i] <= 'F') {
                Some((hash, files))
            } else {
                None
            },
            None => None,
        },
        ({
            let l = text::lines(outside::utf8_lossy(data));
            parsed(data) == if l.len() == 0 {
                None
            } else {
                match manifest_of(l, outside::lowercase(text::trimmed(l[0]))) {
                    Some((expected, files)) => Some(
                        SessionView {
                            expected,
                            files,
                            next: 0,
                            fed: Seq::empty(),
                            errors: Seq::empty(),
                            verdict: None,
                        },
                    ),
                    None => None,
                }
            }
        }),
{
}

// ---------------------------------------------------------------- what the check does
/// A file counts for the check if and only if it is the next one of the list: then its name
/// goes into the hash. Any other is noted, and changes nothing else.
pub proof fn law_next_file_counts(s: SessionView, name: Seq<char>)
    ensures
        started(s, name).1 is Ok <==> s.next < s.files.len() && s.files[s.next as int].0 == name,
        started(s, name).1 is Ok ==> started(s, name).0 == (SessionView {
            fed: s.fed + encode_utf8(name) + seq![0u8],
            ..s
        }),
        started(s, name).1 matches Err(m) ==> started(s, name).0 == (SessionView {
            errors: s.errors.push(m),
            ..s
        }) && m == if s.next < s.files.len() {
            name + ": получен не в том порядке (ожидался "@ + s.files[s.next as int].0 + ")"@
        } else {
            name + ": этого файла нет в списке отправителя"@
        },
{
    assert(s.fed + feed_name(name) =~= s.fed + encode_utf8(name) + seq![0u8]);
}

/// The end of a file that counts: its size goes into the hash, and must be the one in the
/// list. Nothing changes at the end of one that does not count. The verdict falls with the
/// last file, and once only: it is good if nothing was wrong and the hash is the expected one.
pub proof fn law_end_of_a_file(s: SessionView, name: Seq<char>, size: u64)
    requires
        s.next < s.files.len(),
        s.verdict is None,
    ensures
        finished(s, name, false, size) == (s, None::<Seq<char>>),
        ({
            let (t, problem) = finished(s, name, true, size);
            let want = s.files[s.next as int].1;
            &&& t.next == s.next + 1
            &&& t.fed == s.fed + be64(size)
            &&& t.expected == s.expected
            &&& t.files == s.files
            &&& problem is None <==> size == want
            &&& size == want ==> t.errors == s.errors
            &&& problem matches Some(p) ==> t.errors == s.errors.push(p) && p == name
                + ": размер не совпал ("@ + text::dec(size as nat) + " байт вместо "@ + text::dec(
                want as nat,
            ) + ")"@
            &&& t.verdict is Some <==> s.next + 1 == s.files.len()
            &&& t.verdict is Some ==> (passed(t.verdict) <==> t.errors.len() == 0
                && outside::blake3_hex(s.fed + be64(size)) == s.expected)
            &&& t.verdict matches Some(Err(m)) ==> m == if t.errors.len() > 0 {
                text::joined(t.errors, "; "@)
            } else {
                "контрольная сумма всей передачи не совпала (ожидалась "@ + text::head(
                    s.expected,
                    8,
                ) + "…, получена "@ + text::head(outside::blake3_hex(t.fed), 8) + "…)"@
            }
        }),
{
}

/// A transfer that broke off is noted, and the check goes on where it was.
pub proof fn law_broken_transfer_is_noted(s: SessionView, name: Seq<char>, why: Seq<char>)
    ensures
        aborted(s, name, why) == (SessionView {
            errors: s.errors.push(name + ": приём прерван ("@ + why + ")"@),
            ..s
        }),
{
}

/// What the sender is told: how many files were checked, or everything that was wrong, or
/// that files are missing and how many.
pub proof fn law_what_is_reported(s: SessionView)
    ensures
        s.verdict matches Some(Ok(_)) ==> report(s) == "OK\n"@ + text::dec(s.files.len()) + "\n"@,
        s.verdict matches Some(Err(m)) ==> report(s) == "FAIL\n"@ + m + "\n"@,
        s.verdict is None && s.errors.len() == 0 ==> report(s) == "FAIL\n"@
            + "получены не все файлы ("@ + text::dec(s.next) + " из "@ + text::dec(s.files.len())
            + ")\n"@,
        s.verdict is None && text::joined(s.errors, "; "@).len() > 0 ==> report(s) == "FAIL\n"@ + (
        text::joined(s.errors, "; "@) + "; "@) + "получены не все файлы ("@ + text::dec(s.next)
            + " из "@ + text::dec(s.files.len()) + ")\n"@,
{
    assert("FAIL\n"@ + Seq::<char>::empty() =~= "FAIL\n"@);
}

/// The sizes of the first files of a list are added up.
pub proof fn law_sizes_are_added(files: Seq<(Seq<char>, u64)>, n: int)
    requires
        0 <= n < files.len(),
    ensures
        size_sum(files, 0) == 0,
        size_sum(files, n + 1) as int == (size_sum(files, n) + files[n].1)
            % 0x1_0000_0000_0000_0000,
{
}

} // verus!
