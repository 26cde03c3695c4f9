//! The decisions behind the commands: what each one checks, plans and says.
//! The host runs the resulting scripts on the hardware and sequences the
//! output.

use vstd::prelude::*;

use crate::catalog::{describe, describe_text, fallback_table, spec_fallback_table};
use crate::error::{from_flash_spec, NorbertError};
use crate::flash::{
    cmd1, erase_plannable, erase_steps, program_steps_from, unprotect_steps, verify_steps_from,
    write_cycle, FlashError, FlashId, Flasher, Script, Step, StepSpec, CMD_CE,
};
use crate::profile::{spec_plan_erase, EraseType, FlashProfile, ProfileSource};
use crate::sfdp::SfdpHeader;
use crate::text::{dec_digits, hex_upper, push_dec, push_hex};
use crate::ui::{label_width, line_text, row_views, rows_text, Mode, Row, RowView, Ui};
use crate::voice::{found_text, unsupported_text};
use crate::voice;

verus! {

/// Human-friendly byte size: KiB when it divides evenly, else bytes.
pub open spec fn human_bytes_text(n: usize) -> Seq<char> {
    if n >= 1024 && n % 1024 == 0 {
        dec_digits((n / 1024) as nat) + " KiB"@
    } else {
        dec_digits(n as nat) + " B"@
    }
}

/// Human-friendly byte size (KiB when it divides evenly, else bytes).
pub fn human_bytes(n: usize) -> (s: String)
    ensures
        s@ == human_bytes_text(n),
{
    let mut s = String::new();
    if n >= 1024 && n % 1024 == 0 {
        push_dec(&mut s, n / 1024);
        s.append(" KiB");
    } else {
        push_dec(&mut s, n);
        s.append(" B");
    }
    s
}

/// "AA BB CC" for a JEDEC id.
pub open spec fn jedec_spaced_text(j: Seq<u8>) -> Seq<char> {
    hex_upper(j[0] as nat, 2) + " "@ + hex_upper(j[1] as nat, 2) + " "@ + hex_upper(j[2] as nat, 2)
}

/// "AABBCC" for a JEDEC id.
pub open spec fn jedec_compact_text(j: Seq<u8>) -> Seq<char> {
    hex_upper(j[0] as nat, 2) + hex_upper(j[1] as nat, 2) + hex_upper(j[2] as nat, 2)
}

/// A JEDEC id as "AA BB CC".
pub fn jedec_spaced(j: [u8; 3]) -> (s: String)
    ensures
        s@ == jedec_spaced_text(j@),
{
    let mut s = String::new();
    push_hex(&mut s, j[0] as usize, 2);
    s.append(" ");
    push_hex(&mut s, j[1] as usize, 2);
    s.append(" ");
    push_hex(&mut s, j[2] as usize, 2);
    proof {
        assert(s@ =~= jedec_spaced_text(j@));
    }
    s
}

/// A JEDEC id as "AABBCC".
pub fn jedec_compact(j: [u8; 3]) -> (s: String)
    ensures
        s@ == jedec_compact_text(j@),
{
    let mut s = String::new();
    push_hex(&mut s, j[0] as usize, 2);
    push_hex(&mut s, j[1] as usize, 2);
    push_hex(&mut s, j[2] as usize, 2);
    proof {
        assert(s@ =~= jedec_compact_text(j@));
    }
    s
}

/// A voice aside as `mode` shows it: the line for humans, nothing for scripts.
pub open spec fn said(mode: Mode, s: Seq<char>) -> Seq<char> {
    if mode == Mode::Human {
        line_text(s)
    } else {
        Seq::empty()
    }
}

/// One row of the fallback-table listing: the id, two spaces, the label.
pub open spec fn list_row_text(j: Seq<u8>) -> Seq<char> {
    jedec_spaced_text(j) + "  "@ + describe_text(j)
}

/// The listing rows for the given table rows, one line each.
pub open spec fn list_rows_text(t: Seq<crate::catalog::KnownRow>) -> Seq<char>
    decreases t.len(),
{
    if t.len() == 0 {
        Seq::empty()
    } else {
        list_rows_text(t.drop_last()) + line_text(list_row_text(t.last().0))
    }
}

/// The no-SFDP fallback table. No hardware needed: the rows framed by an
/// opener and a note for humans, the bare rows for scripts.
pub fn list(ui: &mut Ui)
    ensures
        final(ui).spec_mode() == old(ui).spec_mode(),
        final(ui).spec_err() == old(ui).spec_err(),
        final(ui).spec_out() == old(ui).spec_out() + said(
            old(ui).spec_mode(),
            "These are the chips I know without asking."@,
        ) + list_rows_text(spec_fallback_table()) + said(
            old(ui).spec_mode(),
            "Anything else should describe itself via SFDP."@,
        ),
{
    ui.say(voice::list_opener());
    let ghost start = ui.spec_out();
    let t = fallback_table();
    let mut i: usize = 0;
    while i < t.len()
        invariant
            0 <= i <= t@.len(),
            t@.len() == spec_fallback_table().len(),
            forall|k: int| 0 <= k < t@.len() ==> (#[trigger] t@[k]).row() == spec_fallback_table()[k],
            ui.spec_mode() == old(ui).spec_mode(),
            ui.spec_err() == old(ui).spec_err(),
            ui.spec_out() == start + list_rows_text(spec_fallback_table().take(i as int)),
        decreases t@.len() - i,
    {
        let c = &t[i];
        let mut row = jedec_spaced(c.jedec);
        row.append("  ");
        let d = describe(c.jedec);
        row.append(d.as_str());
        proof {
            reveal_strlit("  ");
            assert(c.row() == spec_fallback_table()[i as int]);
            assert(row@ =~= list_row_text(spec_fallback_table()[i as int].0));
            let tk = spec_fallback_table().take(i + 1);
            assert(tk.drop_last() == spec_fallback_table().take(i as int));
            assert(tk.last() == spec_fallback_table()[i as int]);
        }
        ui.line(row.as_str(), row.as_str());
        i = i + 1;
    }
    proof {
        assert(spec_fallback_table().take(i as int) == spec_fallback_table());
    }
    ui.say(voice::list_note());
}

/// The erase part of a programming run: the whole chip (one block), or the
/// covered region's plan.
pub open spec fn program_erase_steps(p: FlashProfile, offset: usize, len: usize, chip_erase: bool) -> Seq<
    StepSpec,
> {
    if chip_erase {
        write_cycle(cmd1(CMD_CE)).push(StepSpec::Erased(1))
    } else {
        erase_steps(spec_plan_erase(p.erase@, offset as int, len as int), p.address_width)
    }
}

/// The image does not fit: "image needs N bytes but flash is C bytes".
pub open spec fn too_large_text(need: usize, cap: usize) -> Seq<char> {
    "image needs "@ + dec_digits(need as nat) + " bytes but flash is "@ + dec_digits(cap as nat)
        + " bytes"@
}

/// Plan `program` once the chip is detected and its protection read:
/// refuse a protected chip unless asked to unprotect it, refuse an image
/// that does not fit the known capacity, then unprotect if asked, erase (the
/// whole chip, or the covered blocks), program, and verify unless told not
/// to. Also gives the erase-bar length in blocks.
pub fn plan_program(
    f: &Flasher,
    protected: bool,
    offset: usize,
    image: &[u8],
    skip_verify: bool,
    chip_erase: bool,
    unprotect: bool,
) -> (r: Result<(Script, usize), NorbertError>)
    requires
        offset + image@.len() <= usize::MAX,
        f.spec_profile() matches Some(p) ==> p.page_size > 0 && erase_plannable(
            p,
            offset,
            image@.len() as usize,
        ),
    ensures
        f.spec_profile() is None ==> (r matches Err(e) && e is NotDetected),
        f.spec_profile() matches Some(p) ==> {
            let len = image@.len() as usize;
            if protected && !unprotect {
                r matches Err(e) && e is Protected
            } else if p.capacity matches Some(cap) && offset + len > cap {
                r matches Err(e) && e matches NorbertError::Other(m) && m@ == too_large_text(
                    (offset + len) as usize,
                    p.capacity.unwrap(),
                )
            } else {
                r matches Ok((s, blocks)) && blocks == (if chip_erase {
                    1
                } else {
                    spec_plan_erase(p.erase@, offset as int, len as int).len()
                }) && s@ == (if unprotect {
                    unprotect_steps()
                } else {
                    Seq::empty()
                }) + program_erase_steps(p, offset, len, chip_erase) + program_steps_from(
                    offset as int,
                    image@,
                    0,
                    p.page_size as int,
                    p.address_width,
                    f.spec_max_chunk() as nat,
                    false,
                ) + (if skip_verify {
                    Seq::empty()
                } else {
                    verify_steps_from(
                        offset as int,
                        image@,
                        0,
                        p.address_width,
                        f.spec_max_chunk() as nat,
                        false,
                    )
                })
            }
        },
{
    let p = match f.profile() {
        Some(p) => p,
        None => return Err(NorbertError::NotDetected),
    };
    if protected && !unprotect {
        return Err(NorbertError::Protected);
    }
    if let Some(cap) = p.capacity {
        if offset + image.len() > cap {
            let mut m = String::new();
            m.append("image needs ");
            push_dec(&mut m, offset + image.len());
            m.append(" bytes but flash is ");
            push_dec(&mut m, cap);
            m.append(" bytes");
            return Err(NorbertError::Other(m));
        }
    }
    let mut s = Script::new();
    if unprotect {
        s.extend(f.unprotect());
    }
    let blocks = if chip_erase {
        s.extend(f.chip_erase());
        s.push(Step::Erased(1));
        1
    } else {
        let plan = match f.erase_plan(offset, image.len()) {
            Ok(plan) => plan,
            Err(e) => return Err(NorbertError::from_flash(e)),
        };
        let n = plan.blocks();
        match f.run_erase(&plan) {
            Ok(e) => s.extend(e),
            Err(e) => return Err(NorbertError::from_flash(e)),
        }
        n
    };
    match f.program(offset, image) {
        Ok(pr) => s.extend(pr),
        Err(e) => return Err(NorbertError::from_flash(e)),
    }
    if !skip_verify {
        match f.verify(offset, image) {
            Ok(v) => s.extend(v),
            Err(e) => return Err(NorbertError::from_flash(e)),
        }
    }
    proof {
        let p = f.spec_profile().unwrap();
        let len = image@.len() as usize;
        assert(s@ =~= (if unprotect {
            unprotect_steps()
        } else {
            Seq::empty()
        }) + program_erase_steps(p, offset, len, chip_erase) + program_steps_from(
            offset as int,
            image@,
            0,
            p.page_size as int,
            p.address_width,
            f.spec_max_chunk() as nat,
            false,
        ) + (if skip_verify {
            Seq::empty()
        } else {
            verify_steps_from(
                offset as int,
                image@,
                0,
                p.address_width,
                f.spec_max_chunk() as nat,
                false,
            )
        }));
    }
    Ok((s, blocks))
}

/// What `erase` erases: the whole chip (`None`) or `length` bytes; a missing
/// length without `--chip` is refused before the bus is touched.
pub fn erase_length(length: Option<usize>, chip: bool) -> (r: Result<Option<usize>, NorbertError>)
    ensures
        chip ==> r matches Ok(None),
        !chip && length is Some ==> (r matches Ok(Some(n)) && n == length.unwrap()),
        !chip && length is None ==> (r matches Err(e) && e matches NorbertError::Other(m) && m@
            == "erase needs --length N or --chip"@),
{
    if chip {
        Ok(None)
    } else {
        match length {
            Some(n) => Ok(Some(n)),
            None => Err(NorbertError::other("erase needs --length N or --chip")),
        }
    }
}

/// A sector out of range: "sector N is out of range (chip holds S sectors
/// of B bytes)".
pub open spec fn sector_range_text(n: usize, cap: usize, sec: usize) -> Seq<char> {
    "sector "@ + dec_digits(n as nat) + " is out of range (chip holds "@ + dec_digits(
        (cap / sec) as nat,
    ) + " sectors of "@ + dec_digits(sec as nat) + " bytes)"@
}

/// `a * b`, saturating at `usize::MAX`.
pub open spec fn sat_mul(a: usize, b: usize) -> usize {
    if a * b > usize::MAX {
        usize::MAX
    } else {
        (a * b) as usize
    }
}

/// `a + b`, saturating at `usize::MAX`.
pub open spec fn sat_add(a: usize, b: usize) -> usize {
    if a + b > usize::MAX {
        usize::MAX
    } else {
        (a + b) as usize
    }
}

/// Where sector `n` (of `sec` bytes) starts, or the out-of-range refusal
/// when it ends past the known capacity.
pub open spec fn sector_base_result(n: usize, sec: usize, cap: Option<usize>) -> Result<usize, Seq<char>> {
    let base = sat_mul(n, sec);
    match cap {
        Some(c) if sat_add(base, sec) > c => Err(sector_range_text(n, c, sec)),
        _ => Ok(base),
    }
}

/// The first byte of sector `n` for the self-test (sectors of `sec` bytes,
/// saturating), refused when the sector ends past the known capacity.
pub fn sector_base(n: usize, sec: usize, cap: Option<usize>) -> (r: Result<usize, NorbertError>)
    ensures
        sector_base_result(n, sec, cap) matches Ok(b) ==> r matches Ok(x) && x == b,
        sector_base_result(n, sec, cap) matches Err(t) ==> r matches Err(e) && e matches NorbertError::Other(m) && m@ == t,
{
    let base = match n.checked_mul(sec) {
        Some(b) => b,
        None => usize::MAX,
    };
    let end = match base.checked_add(sec) {
        Some(e) => e,
        None => usize::MAX,
    };
    if let Some(c) = cap {
        if end > c {
            assert(sec > 0) by {
                if sec == 0 {
                    assert(n * sec == 0) by (nonlinear_arith)
                        requires
                            sec == 0,
                    ;
                }
            }
            let mut m = String::new();
            m.append("sector ");
            push_dec(&mut m, n);
            m.append(" is out of range (chip holds ");
            push_dec(&mut m, c / sec);
            m.append(" sectors of ");
            push_dec(&mut m, sec);
            m.append(" bytes)");
            return Err(NorbertError::Other(m));
        }
    }
    Ok(base)
}

/// The sector self-test pattern: byte `i` is `(i mod 256) xor 0xA5`.
pub fn test_pattern(len: usize) -> (v: Vec<u8>)
    ensures
        v@.len() == len,
        forall|i: int| 0 <= i < len ==> #[trigger] v@[i] == ((i % 256) as u8 ^ 0xA5u8),
{
    let mut v: Vec<u8> = Vec::new();
    let mut i: usize = 0;
    while i < len
        invariant
            0 <= i <= len,
            v@.len() == i,
            forall|k: int| 0 <= k < i ==> #[trigger] v@[k] == ((k % 256) as u8 ^ 0xA5u8),
        decreases len - i,
    {
        v.push(((i % 256) as u8) ^ 0xA5);
        i = i + 1;
    }
    v
}


/// A line as `mode` shows it: the human text or the machine token.
pub open spec fn shown(mode: Mode, human: Seq<char>, machine: Seq<char>) -> Seq<char> {
    line_text(
        if mode == Mode::Human {
            human
        } else {
            machine
        },
    )
}

/// `jedec`: the raw id, "AA BB CC" for humans, "AABBCC" for scripts.
pub fn jedec_report(ui: &mut Ui, id: &FlashId)
    ensures
        final(ui).spec_mode() == old(ui).spec_mode(),
        final(ui).spec_err() == old(ui).spec_err(),
        final(ui).spec_out() == old(ui).spec_out() + shown(
            old(ui).spec_mode(),
            jedec_spaced_text(id.spec_jedec()),
            jedec_compact_text(id.spec_jedec()),
        ),
{
    let j = id.jedec();
    let h = jedec_spaced(j);
    let m = jedec_compact(j);
    ui.line(h.as_str(), m.as_str());
}

/// `detect`, once detection has run: the part's name for humans, its id for
/// scripts; a detection fault is the command's error and prints nothing.
pub fn detect_report(ui: &mut Ui, id: &FlashId, detected: Result<FlashProfile, FlashError>) -> (r:
    Result<(), NorbertError>)
    ensures
        final(ui).spec_mode() == old(ui).spec_mode(),
        final(ui).spec_err() == old(ui).spec_err(),
        detected matches Err(e) ==> (r matches Err(n) && from_flash_spec(e, n))
            && final(ui).spec_out() == old(ui).spec_out(),
        detected is Ok ==> r is Ok && final(ui).spec_out() == old(ui).spec_out() + shown(
            old(ui).spec_mode(),
            found_text(describe_text(id.spec_jedec())),
            jedec_spaced_text(id.spec_jedec()),
        ),
{
    match detected {
        Err(e) => Err(NorbertError::from_flash(e)),
        Ok(_) => {
            let j = id.jedec();
            let name = describe(j);
            let h = voice::found(name.as_str());
            let m = jedec_spaced(j);
            ui.line(h.as_str(), m.as_str());
            Ok(())
        },
    }
}

/// One erase granularity as `info` shows it: "size:OP".
pub open spec fn erase_entry_text(e: EraseType) -> Seq<char> {
    dec_digits(e.size as nat) + ":"@ + hex_upper(e.opcode as nat, 2)
}

/// The erase menu as `info` shows it, entries joined by `sep`.
pub open spec fn erase_menu_text(menu: Seq<EraseType>, sep: Seq<char>) -> Seq<char>
    decreases menu.len(),
{
    if menu.len() == 0 {
        Seq::empty()
    } else if menu.len() == 1 {
        erase_entry_text(menu[0])
    } else {
        erase_menu_text(menu.drop_last(), sep) + sep + erase_entry_text(menu.last())
    }
}

/// The erase menu, entries joined by `sep`.
fn erase_menu_string(menu: &Vec<EraseType>, sep: &str) -> (s: String)
    ensures
        s@ == erase_menu_text(menu@, sep@),
{
    let mut s = String::new();
    let mut i: usize = 0;
    while i < menu.len()
        invariant
            0 <= i <= menu@.len(),
            s@ == erase_menu_text(menu@.take(i as int), sep@),
        decreases menu@.len() - i,
    {
        if i > 0 {
            s.append(sep);
        }
        push_dec(&mut s, menu[i].size);
        s.append(":");
        push_hex(&mut s, menu[i].opcode as usize, 2);
        proof {
            let t = menu@.take(i + 1);
            assert(t.drop_last() == menu@.take(i as int));
            assert(t.last() == menu@[i as int]);
            if i == 0 {
                assert(t[0] == menu@[0]);
            }
        }
        i = i + 1;
    }
    proof {
        assert(menu@.take(i as int) == menu@);
    }
    s
}

/// How `info` names where a profile came from.
pub open spec fn source_text(s: ProfileSource) -> Seq<char> {
    match s {
        ProfileSource::Sfdp => "SFDP"@,
        ProfileSource::Table => "table"@,
    }
}

/// The id rows `info` always shows.
pub open spec fn id_row_views(id: FlashId) -> Seq<RowView> {
    seq![
        ("jedec"@, "JEDEC id"@, id.spec_text(), jedec_compact_text(id.spec_jedec())),
        ("chip"@, "chip"@, describe_text(id.spec_jedec()), describe_text(id.spec_jedec())),
    ]
}

/// The profile rows `info` shows once a profile is known: source, page,
/// address width, capacity, the SFDP revision when there is one, and the
/// erase menu (space-separated for humans, comma-separated for scripts).
pub open spec fn profile_row_views(p: FlashProfile) -> Seq<RowView> {
    seq![
        ("source"@, "source"@, source_text(p.source), source_text(p.source)),
        (
            "page"@,
            "page"@,
            dec_digits(p.page_size as nat) + " B"@,
            dec_digits(p.page_size as nat),
        ),
        ("address"@, "address"@, p.address_width.spec_text(), p.address_width.spec_text()),
        match p.capacity {
            Some(c) => (
                "capacity"@,
                "capacity"@,
                dec_digits((c / 1024) as nat) + " KiB"@,
                dec_digits(c as nat),
            ),
            None => ("capacity"@, "capacity"@, "unknown"@, "unknown"@),
        },
    ] + match p.sfdp_revision {
        Some(rev) => seq![
            (
                "sfdp_rev"@,
                "SFDP rev"@,
                dec_digits(rev.0 as nat) + "."@ + dec_digits(rev.1 as nat),
                dec_digits(rev.0 as nat) + "."@ + dec_digits(rev.1 as nat),
            ),
        ],
        None => Seq::empty(),
    } + seq![
        ("erase"@, "erase"@, erase_menu_text(p.erase@, " "@), erase_menu_text(p.erase@, ","@)),
    ]
}

/// The rows of `info`: the id, then the profile when there is one.
pub open spec fn info_row_views(id: FlashId, p: Option<FlashProfile>) -> Seq<RowView> {
    match p {
        Some(p) => id_row_views(id) + profile_row_views(p),
        None => id_row_views(id),
    }
}

/// The id rows of `info`.
fn id_rows(id: &FlashId) -> (rows: Vec<Row>)
    ensures
        row_views(rows@) == id_row_views(*id),
        forall|i: int| 0 <= i < rows@.len() ==> (#[trigger] rows@[i]).label@.len() < 16,
{
    let j = id.jedec();
    let name = describe(j);
    let mut rows: Vec<Row> = Vec::new();
    rows.push(Row { key: "jedec", label: "JEDEC id", human: id.to_text(), machine: jedec_compact(j) });
    rows.push(Row { key: "chip", label: "chip", human: name.clone(), machine: name });
    proof {
        reveal_strlit("JEDEC id");
        reveal_strlit("chip");
        assert(row_views(rows@) =~= id_row_views(*id));
    }
    rows
}

/// The profile rows of `info`.
fn profile_rows(p: &FlashProfile) -> (rows: Vec<Row>)
    ensures
        row_views(rows@) == profile_row_views(*p),
        forall|i: int| 0 <= i < rows@.len() ==> (#[trigger] rows@[i]).label@.len() < 16,
{
    let mut rows: Vec<Row> = Vec::new();
    let src = match p.source {
        ProfileSource::Sfdp => "SFDP",
        ProfileSource::Table => "table",
    };
    rows.push(Row::new("source", "source", src));
    let mut page_h = String::new();
    push_dec(&mut page_h, p.page_size);
    page_h.append(" B");
    let mut page_m = String::new();
    push_dec(&mut page_m, p.page_size);
    rows.push(Row { key: "page", label: "page", human: page_h, machine: page_m });
    let w = p.address_width.to_text();
    rows.push(Row { key: "address", label: "address", human: w.clone(), machine: w });
    match p.capacity {
        Some(c) => {
            let mut h = String::new();
            push_dec(&mut h, c / 1024);
            h.append(" KiB");
            let mut m = String::new();
            push_dec(&mut m, c);
            rows.push(Row { key: "capacity", label: "capacity", human: h, machine: m });
        },
        None => rows.push(Row::new("capacity", "capacity", "unknown")),
    }
    let ghost head = rows@;
    match p.sfdp_revision {
        Some(rev) => {
            let mut t = String::new();
            push_dec(&mut t, rev.0 as usize);
            t.append(".");
            push_dec(&mut t, rev.1 as usize);
            rows.push(Row { key: "sfdp_rev", label: "SFDP rev", human: t.clone(), machine: t });
        },
        None => {},
    }
    let menu = p.erase.iter();
    let h = erase_menu_string(&menu, " ");
    let m = erase_menu_string(&menu, ",");
    rows.push(Row { key: "erase", label: "erase", human: h, machine: m });
    proof {
        reveal_strlit("source");
        reveal_strlit("page");
        reveal_strlit("address");
        reveal_strlit("capacity");
        reveal_strlit("SFDP rev");
        reveal_strlit("erase");
        assert(row_views(rows@) =~= profile_row_views(*p));
    }
    rows
}

/// The rows of `info` for an id and, when known, its profile.
pub fn info_rows(id: &FlashId, p: Option<&FlashProfile>) -> (rows: Vec<Row>)
    ensures
        row_views(rows@) == info_row_views(
            *id,
            match p {
                Some(q) => Some(*q),
                None => None,
            },
        ),
        forall|i: int| 0 <= i < rows@.len() ==> (#[trigger] rows@[i]).label@.len() < 16,
{
    let mut rows = id_rows(id);
    match p {
        Some(q) => {
            let mut more = profile_rows(q);
            let ghost a = rows@;
            let ghost b = more@;
            rows.append(&mut more);
            proof {
                assert(rows@ == a + b);
                assert(row_views(rows@) =~= row_views(a) + row_views(b));
            }
        },
        None => {},
    }
    rows
}

/// What `info` says after the rows: a note on where the profile came from,
/// or that the chip is unknown.
pub open spec fn info_note(id: FlashId, p: Option<FlashProfile>) -> Seq<char> {
    match p {
        Some(p) => if p.sfdp_revision is Some {
            "It told me all that itself. I appreciate a chip that keeps notes."@
        } else {
            "No SFDP on this one. I looked it up in my book."@
        },
        None => unsupported_text(id.spec_jedec()),
    }
}

/// The profile `info` shows for a detection outcome: the detected one, or
/// none for a chip that is simply unknown.
pub open spec fn info_profile(detected: Result<FlashProfile, FlashError>) -> Option<FlashProfile> {
    match detected {
        Ok(p) => Some(p),
        Err(_) => None,
    }
}

/// `info`, once the id is read and detection has run. No chip is a
/// failure; an unknown chip is a note, not a failure (the id rows still
/// show); any other detection fault is the command's error. Nothing is
/// printed on failure.
pub fn info_report(ui: &mut Ui, id: &FlashId, detected: Result<FlashProfile, FlashError>) -> (r:
    Result<(), NorbertError>)
    ensures
        final(ui).spec_mode() == old(ui).spec_mode(),
        final(ui).spec_err() == old(ui).spec_err(),
        !id.spec_is_present() ==> (r matches Err(e) && e is NoFlash) && final(ui).spec_out()
            == old(ui).spec_out(),
        id.spec_is_present() && (detected matches Err(e) && !(e is UnsupportedChip)) ==> (r matches Err(
            n,
        ) && from_flash_spec(detected->Err_0, n)) && final(ui).spec_out() == old(ui).spec_out(),
        id.spec_is_present() && (detected is Ok || (detected matches Err(e) && e is UnsupportedChip))
            ==> r is Ok && final(ui).spec_out() == old(ui).spec_out() + rows_text(
            info_row_views(*id, info_profile(detected)),
            old(ui).spec_mode(),
            label_width(info_row_views(*id, info_profile(detected))),
        ) + said(old(ui).spec_mode(), info_note(*id, info_profile(detected))),
{
    if !id.is_present() {
        return Err(NorbertError::NoFlash);
    }
    let profile = match detected {
        Ok(p) => Some(p),
        Err(FlashError::UnsupportedChip { .. }) => None,
        Err(e) => return Err(NorbertError::from_flash(e)),
    };
    let rows = match &profile {
        Some(p) => info_rows(id, Some(p)),
        None => info_rows(id, None),
    };
    ui.rows(rows.as_slice());
    match &profile {
        Some(p) => ui.say(voice::info_sfdp_note(p.sfdp_revision.is_some())),
        None => {
            let note = voice::unsupported(id.jedec());
            ui.say(note.as_str());
        },
    }
    Ok(())
}

/// How much of the SFDP space `sfdp` dumps, given the 8-byte header read
/// first: 256 bytes when the signature is there, nothing otherwise.
pub fn sfdp_dump_size(header: &[u8]) -> (n: Option<usize>)
    ensures
        SfdpHeader::spec_parse(header@) is Some ==> n == Some(256usize),
        SfdpHeader::spec_parse(header@) is None ==> n is None,
{
    match SfdpHeader::parse(header) {
        Some(_) => Some(256),
        None => None,
    }
}

/// `sfdp`, once the dump (if any) is read: the hex dump under an opener, or
/// a note that there is none ("sfdp=absent" for scripts).
pub fn sfdp_report(ui: &mut Ui, dump: Option<&[u8]>)
    ensures
        final(ui).spec_mode() == old(ui).spec_mode(),
        final(ui).spec_err() == old(ui).spec_err(),
        dump is None ==> final(ui).spec_out() == old(ui).spec_out() + shown(
            old(ui).spec_mode(),
            "No SFDP here. This one doesn't keep notes."@,
            "sfdp=absent"@,
        ),
        dump matches Some(b) ==> final(ui).spec_out() == old(ui).spec_out() + said(
            old(ui).spec_mode(),
            "Here is what it keeps in its parameter tables."@,
        ) + crate::ui::hexdump_text(0, b@),
{
    match dump {
        None => ui.line(voice::no_sfdp(), "sfdp=absent"),
        Some(b) => {
            ui.say(voice::sfdp_opener());
            let n = b.len();
            assert(n > 0 ==> (n - 1) / 16 * 16 <= n - 1) by (nonlinear_arith);
            ui.hexdump(0, b);
        },
    }
}


/// `read`, once the bytes are saved: how many went where for humans, the
/// count for scripts.
pub fn read_report(ui: &mut Ui, length: usize, path: &str)
    ensures
        final(ui).spec_mode() == old(ui).spec_mode(),
        final(ui).spec_err() == old(ui).spec_err(),
        final(ui).spec_out() == old(ui).spec_out() + shown(
            old(ui).spec_mode(),
            voice::read_done_text(length, path@),
            dec_digits(length as nat),
        ),
{
    let h = voice::read_done(length, path);
    let mut m = String::new();
    push_dec(&mut m, length);
    ui.line(h.as_str(), m.as_str());
}


/// `program`, once it succeeded: the summary (blocks erased, size written,
/// time taken in tenths of a second) for humans, "OK" for scripts.
pub fn program_report(ui: &mut Ui, blocks: usize, len: usize, tenths: usize)
    ensures
        final(ui).spec_mode() == old(ui).spec_mode(),
        final(ui).spec_err() == old(ui).spec_err(),
        final(ui).spec_out() == old(ui).spec_out() + shown(
            old(ui).spec_mode(),
            voice::program_summary_text(blocks, human_bytes_text(len), tenths),
            "OK"@,
        ),
{
    let size = human_bytes(len);
    let h = voice::program_summary(blocks, size.as_str(), tenths);
    ui.line(h.as_str(), "OK");
}

} // verus!
