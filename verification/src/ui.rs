//! Norbert's presentation layer: everything the tool prints passes through
//! here. Handlers gather data and sequence these methods; personality text
//! comes from `voice`; this module owns layout and the Human/Machine choice.
//! Output is collected in buffers that the host writes out.

use vstd::prelude::*;

use crate::error::NorbertError;
use crate::text::{hex_upper, owned, pad_right, push_char, push_hex, push_repeat};
use crate::voice;

verus! {

/// Human: voice and aligned blocks. Machine: stable tokens for scripts
/// (`--quiet`, or stdout is not a terminal).
#[derive(Debug, Clone, Copy, PartialEq, Eq, Structural)]
pub enum Mode {
    Human,
    Machine,
}

/// One labeled field. `human`/`machine` differ where units do (e.g. capacity).
pub struct Row {
    pub key: &'static str,
    pub label: &'static str,
    pub human: String,
    pub machine: String,
}

impl Row {
    /// Same text in both modes (chip name, source, ...).
    pub fn new(key: &'static str, label: &'static str, value: &str) -> (r: Row)
        ensures
            r.key == key,
            r.label == label,
            r.human@ == value@,
            r.machine@ == value@,
    {
        Row { key, label, human: owned(value), machine: owned(value) }
    }

    /// Different text per mode (Human "16384 KiB" vs Machine "16777216").
    pub fn split(key: &'static str, label: &'static str, human: &str, machine: &str) -> (r: Row)
        ensures
            r.key == key,
            r.label == label,
            r.human@ == human@,
            r.machine@ == machine@,
    {
        Row { key, label, human: owned(human), machine: owned(machine) }
    }
}

/// A row as text: key, label, human value, machine value.
pub type RowView = (Seq<char>, Seq<char>, Seq<char>, Seq<char>);

impl View for Row {
    type V = RowView;

    open spec fn view(&self) -> RowView {
        (self.key@, self.label@, self.human@, self.machine@)
    }
}

/// The text of each row.
pub open spec fn row_views(rows: Seq<Row>) -> Seq<RowView> {
    rows.map_values(|r: Row| r@)
}

/// A captured output channel.
pub struct Buf {
    text: String,
}

impl View for Buf {
    type V = Seq<char>;

    closed spec fn view(&self) -> Seq<char> {
        self.text@
    }
}

impl Buf {
    pub fn new() -> (b: Buf)
        ensures
            b@ == Seq::<char>::empty(),
    {
        Buf { text: String::new() }
    }

    /// Everything written so far.
    pub fn contents(&self) -> (s: String)
        ensures
            s@ == self@,
    {
        self.text.clone()
    }

    fn write_line(&mut self, s: &str)
        ensures
            final(self)@ == old(self)@ + s@ + seq!['\n'],
    {
        self.text.append(s);
        push_char(&mut self.text, '\n');
        proof {
            assert(self@ =~= old(self)@ + s@ + seq!['\n']);
        }
    }

    fn write(&mut self, s: &str)
        ensures
            final(self)@ == old(self)@ + s@,
    {
        self.text.append(s);
    }

    /// Hand over everything written so far, leaving the channel empty.
    fn take(&mut self) -> (s: String)
        ensures
            s@ == old(self)@,
            final(self)@ == Seq::<char>::empty(),
    {
        let s = self.text.clone();
        self.text = String::new();
        s
    }
}

/// Which phases a run will show, and their lengths.
#[derive(Debug, Clone, Copy, PartialEq, Eq, Structural)]
pub struct ProgressPlan {
    pub erase_blocks: Option<u64>,
    pub program_bytes: Option<u64>,
    pub verify_bytes: Option<u64>,
}

/// The presenter: the output mode plus the stdout and stderr channels.
pub struct Ui {
    mode: Mode,
    out: Buf,
    err: Buf,
}

/// `s` as a line.
pub open spec fn line_text(s: Seq<char>) -> Seq<char> {
    s + seq!['\n']
}

/// The widest label, plus one for the colon.
pub open spec fn label_width(rows: Seq<RowView>) -> nat
    decreases rows.len(),
{
    if rows.len() == 0 {
        1
    } else {
        let w = label_width(rows.drop_last());
        let l = rows.last().1.len() + 1;
        if l > w {
            l
        } else {
            w
        }
    }
}

/// A human row: "label:" padded to the label column, a space, the value.
pub open spec fn human_row(r: RowView, w: nat) -> Seq<char> {
    line_text(pad_right(r.1 + ":"@, w) + " "@ + r.2)
}

/// A machine row: "key=value".
pub open spec fn machine_row(r: RowView) -> Seq<char> {
    line_text(r.0 + "="@ + r.3)
}

/// The rows as the given mode shows them.
pub open spec fn rows_text(rows: Seq<RowView>, mode: Mode, w: nat) -> Seq<char>
    decreases rows.len(),
{
    if rows.len() == 0 {
        Seq::empty()
    } else {
        rows_text(rows.drop_last(), mode, w) + match mode {
            Mode::Human => human_row(rows.last(), w),
            Mode::Machine => machine_row(rows.last()),
        }
    }
}

/// The hex digits of `bytes`, separated by single spaces.
pub open spec fn hex_joined(bytes: Seq<u8>) -> Seq<char>
    decreases bytes.len(),
{
    if bytes.len() == 0 {
        Seq::empty()
    } else if bytes.len() == 1 {
        hex_upper(bytes[0] as nat, 2)
    } else {
        hex_joined(bytes.drop_last()) + " "@ + hex_upper(bytes.last() as nat, 2)
    }
}

/// A hex dump: 16 bytes per row, each row addressed from `base`.
pub open spec fn hexdump_text(base: nat, bytes: Seq<u8>) -> Seq<char>
    decreases bytes.len(),
{
    if bytes.len() == 0 {
        Seq::empty()
    } else {
        let n = if bytes.len() < 16 {
            bytes.len() as int
        } else {
            16
        };
        line_text("  "@ + hex_upper(base, 4) + ": "@ + hex_joined(bytes.take(n)))
            + hexdump_text(base + 16, bytes.skip(n))
    }
}

/// What a failure prints for humans, what for scripts, and the exit code.
pub open spec fn fail_parts(e: NorbertError) -> (Seq<char>, Seq<char>, u8) {
    match e {
        NorbertError::NoFlash => ("I don't see a flash chip.\n\nIs it plugged in?"@, "FAIL: no chip"@, 1),
        NorbertError::Unsupported(j) => (
            voice::unsupported_text(j@),
            "FAIL: unsupported "@ + hex_upper(j@[0] as nat, 2) + " "@ + hex_upper(j@[1] as nat, 2)
                + " "@ + hex_upper(j@[2] as nat, 2),
            1,
        ),
        NorbertError::VerifyMismatch { addr } => (
            voice::verify_fail_text(addr),
            "FAIL: verify @0x"@ + hex_upper(addr as nat, 6),
            1,
        ),
        NorbertError::Protected => (
            "Write protection is enabled.\n\nThat's not happening today."@,
            "FAIL: protected"@,
            1,
        ),
        NorbertError::Timeout => (
            "The flash stopped answering.\n\nIt may be busy, or gone."@,
            "FAIL: timeout"@,
            1,
        ),
        NorbertError::NotDetected => (
            "I don't know this flash's geometry yet.\n\nRun detect first."@,
            "FAIL: not detected"@,
            1,
        ),
        NorbertError::Cancelled => ("Stopped. The bus is released."@, "FAIL: cancelled"@, 130),
        NorbertError::Other(m) => (m@, "FAIL: "@ + m@, 1),
    }
}

impl Ui {
    pub closed spec fn spec_mode(&self) -> Mode {
        self.mode
    }

    /// What has been written to standard output.
    pub closed spec fn spec_out(&self) -> Seq<char> {
        self.out@
    }

    /// What has been written to standard error.
    pub closed spec fn spec_err(&self) -> Seq<char> {
        self.err@
    }

    /// A presenter in `mode` with empty channels.
    pub fn from_parts(mode: Mode) -> (ui: Ui)
        ensures
            ui.spec_mode() == mode,
            ui.spec_out() == Seq::<char>::empty(),
            ui.spec_err() == Seq::<char>::empty(),
    {
        Ui { mode, out: Buf::new(), err: Buf::new() }
    }

    /// A presenter in `mode` whose output stays captured for inspection.
    pub fn captured(mode: Mode) -> (ui: Ui)
        ensures
            ui.spec_mode() == mode,
            ui.spec_out() == Seq::<char>::empty(),
            ui.spec_err() == Seq::<char>::empty(),
    {
        Self::from_parts(mode)
    }

    pub fn mode(&self) -> (m: Mode)
        ensures
            m == self.spec_mode(),
    {
        self.mode
    }

    pub fn is_human(&self) -> (b: bool)
        ensures
            b == (self.spec_mode() == Mode::Human),
    {
        self.mode == Mode::Human
    }

    /// The standard-output channel.
    pub fn out(&self) -> (b: &Buf)
        ensures
            b@ == self.spec_out(),
    {
        &self.out
    }

    /// The standard-error channel.
    pub fn err(&self) -> (b: &Buf)
        ensures
            b@ == self.spec_err(),
    {
        &self.err
    }

    /// Hand over what is pending for standard output and standard error.
    pub fn take_output(&mut self) -> (r: (String, String))
        ensures
            r.0@ == old(self).spec_out(),
            r.1@ == old(self).spec_err(),
            final(self).spec_out() == Seq::<char>::empty(),
            final(self).spec_err() == Seq::<char>::empty(),
            final(self).spec_mode() == old(self).spec_mode(),
    {
        let o = self.out.take();
        let e = self.err.take();
        (o, e)
    }

    /// The progress view a run shows: the planned bars for humans, none at
    /// all for scripts (the view is inert in Machine mode).
    pub fn progress(&self, plan: ProgressPlan) -> (p: ProgressPlan)
        ensures
            self.spec_mode() == Mode::Human ==> p == plan,
            self.spec_mode() == Mode::Machine ==> p == (ProgressPlan {
                erase_blocks: None,
                program_bytes: None,
                verify_bytes: None,
            }),
    {
        match self.mode {
            Mode::Human => plan,
            Mode::Machine => ProgressPlan { erase_blocks: None, program_bytes: None, verify_bytes: None },
        }
    }

    /// A voice aside (opener/closer/note). Human only.
    pub fn say(&mut self, line: &str)
        ensures
            final(self).spec_mode() == old(self).spec_mode(),
            final(self).spec_err() == old(self).spec_err(),
            final(self).spec_out() == old(self).spec_out() + (if old(self).spec_mode()
                == Mode::Human {
                line_text(line@)
            } else {
                Seq::empty()
            }),
    {
        if self.mode == Mode::Human {
            self.out.write_line(line);
        }
        proof {
            assert(self.spec_out() =~= old(self).spec_out() + (if old(self).spec_mode()
                == Mode::Human {
                line_text(line@)
            } else {
                Seq::empty()
            }));
        }
    }

    /// A terminal outcome: voice for humans, a stable token for scripts.
    pub fn line(&mut self, human: &str, machine: &str)
        ensures
            final(self).spec_mode() == old(self).spec_mode(),
            final(self).spec_err() == old(self).spec_err(),
            final(self).spec_out() == old(self).spec_out() + line_text(
                if old(self).spec_mode() == Mode::Human {
                    human@
                } else {
                    machine@
                },
            ),
    {
        match self.mode {
            Mode::Human => self.out.write_line(human),
            Mode::Machine => self.out.write_line(machine),
        }
    }

    /// A labeled data block. Human aligns `label:` columns; Machine emits
    /// `key=value`.
    pub fn rows(&mut self, rows: &[Row])
        requires
            forall|i: int| 0 <= i < rows@.len() ==> (#[trigger] rows@[i]).label@.len() < usize::MAX,
        ensures
            final(self).spec_mode() == old(self).spec_mode(),
            final(self).spec_err() == old(self).spec_err(),
            final(self).spec_out() == old(self).spec_out() + rows_text(
                row_views(rows@),
                old(self).spec_mode(),
                label_width(row_views(rows@)),
            ),
    {
        let ghost vs = row_views(rows@);
        let mut w: usize = 1;
        let mut i: usize = 0;
        while i < rows.len()
            invariant
                0 <= i <= rows@.len(),
                vs == row_views(rows@),
                w as nat == label_width(vs.take(i as int)),
                forall|k: int| 0 <= k < rows@.len() ==> (#[trigger] rows@[k]).label@.len() < usize::MAX,
            decreases rows@.len() - i,
        {
            let l = rows[i].label.unicode_len();
            proof {
                assert(vs.take(i + 1).drop_last() == vs.take(i as int));
                assert(vs.take(i + 1).last() == vs[i as int]);
                assert(l < usize::MAX);
            }
            if l + 1 > w {
                w = l + 1;
            }
            i = i + 1;
        }
        proof {
            assert(vs.take(vs.len() as int) == vs);
        }
        let ghost before = self.out@;
        let mut j: usize = 0;
        while j < rows.len()
            invariant
                0 <= j <= rows@.len(),
                vs == row_views(rows@),
                self.out@ == before + rows_text(vs.take(j as int), self.mode, w as nat),
                w as nat == label_width(vs),
                self.err@ == old(self).err@,
                self.mode == old(self).mode,
                forall|k: int| 0 <= k < rows@.len() ==> (#[trigger] rows@[k]).label@.len() < usize::MAX,
            decreases rows@.len() - j,
        {
            let r = &rows[j];
            proof {
                assert(r.label@.len() < usize::MAX);
                assert(vs[j as int] == r@);
                reveal_strlit(":");
                reveal_strlit(" ");
            }
            match self.mode {
                Mode::Human => {
                    let mut s = String::new();
                    s.append(r.label);
                    s.append(":");
                    let n = r.label.unicode_len() + 1;
                    if n < w {
                        push_repeat(&mut s, ' ', w - n);
                    }
                    s.append(" ");
                    s.append(r.human.as_str());
                    proof {
                        assert(s@ =~= pad_right(r.label@ + ":"@, w as nat) + " "@ + r.human@);
                    }
                    self.out.write_line(s.as_str());
                },
                Mode::Machine => {
                    let mut s = String::new();
                    s.append(r.key);
                    s.append("=");
                    s.append(r.machine.as_str());
                    self.out.write_line(s.as_str());
                },
            }
            proof {
                assert(vs.take(j + 1).drop_last() == vs.take(j as int));
                assert(vs.take(j + 1).last() == vs[j as int]);
            }
            j = j + 1;
        }
        proof {
            assert(vs.take(vs.len() as int) == vs);
        }
    }

    /// A hex dump (raw SFDP). Same 16-per-row layout in both modes.
    pub fn hexdump(&mut self, base: usize, bytes: &[u8])
        requires
            bytes@.len() > 0 ==> base + (bytes@.len() - 1) / 16 * 16 <= usize::MAX,
        ensures
            final(self).spec_mode() == old(self).spec_mode(),
            final(self).spec_err() == old(self).spec_err(),
            final(self).spec_out() == old(self).spec_out() + hexdump_text(base as nat, bytes@),
    {
        let ghost before = self.out@;
        let n = bytes.len();
        let mut start: usize = 0;
        assert(bytes@.skip(0) == bytes@);
        while start < n
            invariant
                0 <= start <= n,
                n == bytes@.len(),
                n > 0 ==> base + (n - 1) / 16 * 16 <= usize::MAX,
                start < n ==> start % 16 == 0,
                self.err@ == old(self).err@,
                self.mode == old(self).mode,
                self.out@ + hexdump_text((base + start) as nat, bytes@.skip(start as int)) == before
                    + hexdump_text(base as nat, bytes@),
            decreases n - start,
        {
            let k = if n - start < 16 {
                n - start
            } else {
                16
            };
            assert(start <= (n - 1) / 16 * 16) by (nonlinear_arith)
                requires
                    start < n,
                    start % 16 == 0,
            ;
            let mut s = String::new();
            s.append("  ");
            push_hex(&mut s, base + start, 4);
            s.append(": ");
            let ghost head = s@;
            let mut i: usize = 0;
            while i < k
                invariant
                    0 <= i <= k,
                    start + k <= n,
                    n == bytes@.len(),
                    s@ == head + hex_joined(bytes@.subrange(start as int, start + i)),
                decreases k - i,
            {
                if i > 0 {
                    s.append(" ");
                }
                push_hex(&mut s, bytes[start + i] as usize, 2);
                proof {
                    let t = bytes@.subrange(start as int, start + i + 1);
                    assert(t.drop_last() == bytes@.subrange(start as int, start + i));
                    assert(t.last() == bytes@[start + i]);
                    if i == 0 {
                        assert(bytes@.subrange(start as int, start as int) == Seq::<u8>::empty());
                    }
                }
                i = i + 1;
            }
            let ghost rest = bytes@.skip(start as int);
            proof {
                assert(rest.take(k as int) == bytes@.subrange(start as int, start + k));
                assert(rest.skip(k as int) == bytes@.skip(start + k));
                reveal_strlit("  ");
                reveal_strlit(": ");
                assert(s@ =~= "  "@ + hex_upper((base + start) as nat, 4) + ": "@ + hex_joined(
                    rest.take(k as int),
                ));
            }
            self.out.write_line(s.as_str());
            start = start + k;
            proof {
                let here = line_text(s@);
                let b0 = (base + start - k) as nat;
                assert(rest.len() == n - (start - k));
                if k < 16 {
                    assert(rest.skip(k as int).len() == 0);
                    assert(bytes@.skip(start as int).len() == 0);
                    assert(hexdump_text(b0 + 16, rest.skip(k as int)) == Seq::<char>::empty());
                    assert(hexdump_text((base + start) as nat, bytes@.skip(start as int))
                        == Seq::<char>::empty());
                } else {
                    assert(b0 + 16 == (base + start) as nat);
                }
                assert(hexdump_text(b0, rest) == here + hexdump_text(b0 + 16, rest.skip(k as int)));
                assert(hexdump_text((base + start - k) as nat, rest) == here + hexdump_text(
                    (base + start) as nat,
                    bytes@.skip(start as int),
                ));
            }
        }
        proof {
            assert(bytes@.skip(n as int) == Seq::<u8>::empty());
            assert(self.out@ + Seq::<char>::empty() == self.out@);
        }
    }

    /// Render a failure to standard error (voice for humans, `FAIL: ...` for
    /// scripts) and give the process exit code: 130 for a cancellation, 1
    /// otherwise.
    pub fn fail(&mut self, e: &NorbertError) -> (code: u8)
        ensures
            final(self).spec_mode() == old(self).spec_mode(),
            final(self).spec_out() == old(self).spec_out(),
            final(self).spec_err() == old(self).spec_err() + line_text(
                if old(self).spec_mode() == Mode::Human {
                    fail_parts(*e).0
                } else {
                    fail_parts(*e).1
                },
            ),
            code == fail_parts(*e).2,
    {
        let mut machine = String::new();
        let (human, code): (String, u8) = match e {
            NorbertError::NoFlash => {
                machine.append("FAIL: no chip");
                (owned(voice::no_flash()), 1)
            },
            NorbertError::Unsupported(j) => {
                machine.append("FAIL: unsupported ");
                push_hex(&mut machine, j[0] as usize, 2);
                machine.append(" ");
                push_hex(&mut machine, j[1] as usize, 2);
                machine.append(" ");
                push_hex(&mut machine, j[2] as usize, 2);
                (voice::unsupported(*j), 1)
            },
            NorbertError::VerifyMismatch { addr } => {
                machine.append("FAIL: verify @0x");
                push_hex(&mut machine, *addr, 6);
                (voice::verify_fail(*addr), 1)
            },
            NorbertError::Protected => {
                machine.append("FAIL: protected");
                (owned(voice::protected()), 1)
            },
            NorbertError::Timeout => {
                machine.append("FAIL: timeout");
                (owned(voice::timeout()), 1)
            },
            NorbertError::NotDetected => {
                machine.append("FAIL: not detected");
                (owned(voice::not_detected()), 1)
            },
            NorbertError::Cancelled => {
                machine.append("FAIL: cancelled");
                (owned(voice::cancelled()), 130)
            },
            NorbertError::Other(m) => {
                machine.append("FAIL: ");
                machine.append(m.as_str());
                (m.clone(), 1)
            },
        };
        proof {
            assert(machine@ =~= fail_parts(*e).1);
            assert(human@ =~= fail_parts(*e).0);
        }
        match self.mode {
            Mode::Human => self.err.write_line(human.as_str()),
            Mode::Machine => self.err.write_line(machine.as_str()),
        }
        code
    }
}

} // verus!
