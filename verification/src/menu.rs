//! What the tray shows: its menu and its tooltip, built from the figures of a snapshot
//! (the fractional numbers come already written, to the precision the tray shows).
use vstd::prelude::*;

use crate::icon::pad_left;
use crate::text::{chars_of, decimal, decimal_string, push_char, push_chars, push_decimal, push_str};
use crate::tray::{bytes_text, format_bytes, short_time, short_time_text};

verus! {

/// One entry of the tray's menu.
pub enum MenuEntry {
    /// A line of text that cannot be clicked.
    Label(String),
    Separator,
    /// Opens the project's repository.
    Repository,
    /// Opens the page for supporting the author.
    Coffee,
    /// Ends the tray.
    Quit,
}

/// A menu entry as a value.
pub enum EntryText {
    Label(Seq<char>),
    Separator,
    Repository,
    Coffee,
    Quit,
}

/// The value of a menu entry.
pub open spec fn entry_text(e: MenuEntry) -> EntryText {
    match e {
        MenuEntry::Label(s) => EntryText::Label(s@),
        MenuEntry::Separator => EntryText::Separator,
        MenuEntry::Repository => EntryText::Repository,
        MenuEntry::Coffee => EntryText::Coffee,
        MenuEntry::Quit => EntryText::Quit,
    }
}

/// A temperature sensor line: chip, label and the temperature written with one decimal.
pub struct SensorLine {
    pub chip: String,
    pub label: String,
    pub temp: String,
}

/// A process line: pid, the CPU share written with one decimal in five places, name and
/// memory.
pub struct ProcessLine {
    pub pid: u32,
    pub cpu: String,
    pub name: String,
    pub memory_bytes: u64,
}

/// The figures of a snapshot that the tray shows.
pub struct CpuFacts {
    /// Temperature, one decimal.
    pub temperature: Option<String>,
    /// Usage percentage, one decimal.
    pub usage: String,
    /// Frequency in MHz, no decimals.
    pub frequency: Option<String>,
    /// Load averages over 1, 5 and 15 minutes, two decimals each.
    pub load: Option<(String, String, String)>,
    pub logical_cores: u32,
    pub physical_cores: Option<u32>,
    pub model: Option<String>,
    pub kernel: Option<String>,
    pub sensors: Vec<SensorLine>,
    pub processes: Vec<ProcessLine>,
    /// When the snapshot was taken (RFC 3339).
    pub timestamp: String,
}

/// The state of the tray's connection to the backend.
pub enum TrayView {
    Connecting,
    Connected(CpuFacts),
    Disconnected(String),
}

/// `"°C"`.
pub open spec fn celsius() -> Seq<char> {
    seq!['\u{b0}', 'C']
}

/// The line of a sensor.
pub open spec fn sensor_line_text(s: SensorLine) -> Seq<char> {
    "  "@ + s.chip@ + seq!['/'] + s.label@ + ": "@ + s.temp@ + celsius()
}

/// The line of a process.
pub open spec fn process_line_text(p: ProcessLine) -> Seq<char> {
    "  "@ + pad_left(decimal(p.pid as nat), 6) + seq![' '] + p.cpu@ + "%  "@ + p.name@ + " ("@
        + bytes_text(p.memory_bytes) + seq![')']
}

/// The cores line's tail: the physical cores, where known.
pub open spec fn physical_text(p: Option<u32>) -> Seq<char> {
    match p {
        Some(n) => " logical / "@ + decimal(n as nat) + " physical"@,
        None => seq![],
    }
}

/// The entries that head the menu of a connected snapshot: temperature and usage.
pub open spec fn head_entries(f: CpuFacts) -> Seq<EntryText> {
    seq![
        EntryText::Label(
            "CPU Temp: "@ + match f.temperature {
                Some(t) => t@ + celsius(),
                None => "N/A"@,
            },
        ),
        EntryText::Label("CPU Usage: "@ + f.usage@ + seq!['%']),
    ]
}

/// The frequency entry, where there is a frequency.
pub open spec fn frequency_entries(f: CpuFacts) -> Seq<EntryText> {
    match f.frequency {
        Some(x) => seq![EntryText::Label("Frequency: "@ + x@ + " MHz"@)],
        None => seq![],
    }
}

/// The load entry, where there are load averages.
pub open spec fn load_entries(f: CpuFacts) -> Seq<EntryText> {
    match f.load {
        Some(l) => seq![EntryText::Label("Load avg: "@ + l.0@ + " / "@ + l.1@ + " / "@ + l.2@)],
        None => seq![],
    }
}

/// The cores entry, the model where known, and a separator.
pub open spec fn cores_entries(f: CpuFacts) -> Seq<EntryText> {
    seq![
        EntryText::Label(
            "Cores: "@ + decimal(f.logical_cores as nat) + physical_text(f.physical_cores),
        ),
    ] + (match f.model {
        Some(m) => seq![EntryText::Label(m@)],
        None => seq![],
    }) + seq![EntryText::Separator]
}

/// The sensors, under a heading and followed by a separator, where there are any.
pub open spec fn sensor_entries(f: CpuFacts) -> Seq<EntryText> {
    if f.sensors.len() > 0 {
        seq![EntryText::Label("Sensors:"@)] + f.sensors@.map_values(
            |s: SensorLine| EntryText::Label(sensor_line_text(s)),
        ) + seq![EntryText::Separator]
    } else {
        seq![]
    }
}

/// The processes, under a heading and followed by a separator, where there are any.
pub open spec fn process_entries(f: CpuFacts) -> Seq<EntryText> {
    if f.processes.len() > 0 {
        seq![EntryText::Label("Top processes ("@ + decimal(f.processes.len() as nat) + "):"@)]
            + f.processes@.map_values(|p: ProcessLine| EntryText::Label(process_line_text(p)))
            + seq![EntryText::Separator]
    } else {
        seq![]
    }
}

/// The backend and the time of the snapshot, and a separator.
pub open spec fn tail_entries(f: CpuFacts, url: Seq<char>) -> Seq<EntryText> {
    seq![
        EntryText::Label("Backend: "@ + url),
        EntryText::Label("Updated: "@ + short_time_text(f.timestamp@)),
        EntryText::Separator,
    ]
}

/// The menu entries that describe a connected snapshot.
pub open spec fn connected_entries(f: CpuFacts, url: Seq<char>) -> Seq<EntryText> {
    head_entries(f) + frequency_entries(f) + load_entries(f) + cores_entries(f) + sensor_entries(
        f,
    ) + process_entries(f) + tail_entries(f, url)
}

/// The tray's menu: what the connection state calls for, then the fixed entries.
pub open spec fn menu_text(view: TrayView, url: Seq<char>) -> Seq<EntryText> {
    (match view {
        TrayView::Connecting => seq![
            EntryText::Label("Connecting to "@ + url + seq!['\u{2026}']),
            EntryText::Separator,
        ],
        TrayView::Disconnected(err) => seq![
            EntryText::Label("Backend offline: "@ + err@),
            EntryText::Label("Backend: "@ + url),
            EntryText::Separator,
        ],
        TrayView::Connected(f) => connected_entries(f, url),
    }) + seq![EntryText::Repository, EntryText::Coffee, EntryText::Separator, EntryText::Quit]
}

/// In the menu of a connected snapshot with processes, the process heading gives the
/// number of process lines: at position `j` it reads `Top processes (<n>):` with `n` the
/// number of processes, the `n` entries after it are the processes' lines in order, and a
/// separator closes the list.
pub proof fn process_heading_counts_its_lines(f: CpuFacts, url: Seq<char>) -> (j: int)
    requires
        f.processes.len() > 0,
    ensures
        0 <= j,
        j + f.processes.len() + 1 < menu_text(TrayView::Connected(f), url).len(),
        menu_text(TrayView::Connected(f), url)[j] == EntryText::Label(
            "Top processes ("@ + decimal(f.processes.len() as nat) + "):"@,
        ),
        forall|k: int|
            0 <= k < f.processes.len() ==> #[trigger] menu_text(TrayView::Connected(f), url)[j + 1
                + k] == EntryText::Label(process_line_text(f.processes@[k])),
        menu_text(TrayView::Connected(f), url)[j + 1 + f.processes.len()] == EntryText::Separator,
{
    let before = head_entries(f) + frequency_entries(f) + load_entries(f) + cores_entries(f)
        + sensor_entries(f);
    let pe = process_entries(f);
    let n = f.processes.len() as int;
    let fixed = seq![EntryText::Repository, EntryText::Coffee, EntryText::Separator, EntryText::Quit];
    let m = menu_text(TrayView::Connected(f), url);
    assert(connected_entries(f, url) == before + pe + tail_entries(f, url));
    assert(m == before + pe + tail_entries(f, url) + fixed);
    assert(pe.len() == n + 2);
    let j = before.len() as int;
    assert forall|x: int| 0 <= x < pe.len() implies #[trigger] m[j + x] == pe[x] by {
        assert((before + pe)[j + x] == pe[x]);
        assert((before + pe + tail_entries(f, url))[j + x] == pe[x]);
    }
    assert(m[j] == pe[0]);
    assert forall|k: int| 0 <= k < n implies #[trigger] m[j + 1 + k] == EntryText::Label(
        process_line_text(f.processes@[k]),
    ) by {
        assert(m[j + (1 + k)] == pe[1 + k]);
    }
    assert(m[j + (1 + n)] == pe[1 + n]);
    j
}

fn label(out: &mut Vec<MenuEntry>, s: String)
    ensures
        entries_text(final(out)@) == entries_text(old(out)@).push(EntryText::Label(s@)),
{
    let ghost before = out@;
    out.push(MenuEntry::Label(s));
    assert(out@.map_values(|e: MenuEntry| entry_text(e)) =~= before.map_values(
        |e: MenuEntry| entry_text(e),
    ).push(EntryText::Label(s@)));
}

fn entry(out: &mut Vec<MenuEntry>, e: MenuEntry)
    ensures
        entries_text(final(out)@) == entries_text(old(out)@).push(entry_text(e)),
{
    let ghost before = out@;
    let ghost t = entry_text(e);
    out.push(e);
    assert(out@.map_values(|e: MenuEntry| entry_text(e)) =~= before.map_values(
        |e: MenuEntry| entry_text(e),
    ).push(t));
}

fn text2(a: &str, b: &str) -> (r: String)
    ensures
        r@ == a@ + b@,
{
    let mut s = String::new();
    push_str(&mut s, a);
    push_str(&mut s, b);
    assert(s@ =~= a@ + b@);
    s
}

fn text1(a: &str) -> (r: String)
    ensures
        r@ == a@,
{
    let mut s = String::new();
    push_str(&mut s, a);
    assert(s@ =~= a@);
    s
}

fn text3(a: &str, b: &str, c: &str) -> (r: String)
    ensures
        r@ == a@ + b@ + c@,
{
    let mut s = String::new();
    push_str(&mut s, a);
    push_str(&mut s, b);
    push_str(&mut s, c);
    assert(s@ =~= a@ + b@ + c@);
    s
}

/// `n` in decimal, right-aligned in `width` places.
pub fn padded_decimal(n: u64, width: usize) -> (r: String)
    ensures
        r@ == pad_left(decimal(n as nat), width as nat),
{
    let d = decimal_string(n);
    let dv = chars_of(d.as_str());
    let mut s = String::new();
    let mut k: usize = dv.len();
    while k < width
        invariant
            dv.len() <= k <= width || (k == dv.len() && k >= width),
            s@ == Seq::new((k - dv.len()) as nat, |i: int| ' '),
        decreases width - k,
    {
        push_char(&mut s, ' ');
        k += 1;
        assert(s@ =~= Seq::new((k - dv.len()) as nat, |i: int| ' '));
    }
    push_chars(&mut s, &dv);
    proof {
        if dv.len() >= width {
            assert(s@ =~= dv@);
        } else {
            assert(k == width);
        }
    }
    s
}

/// The line of a sensor.
pub fn sensor_line(s: &SensorLine) -> (r: String)
    ensures
        r@ == sensor_line_text(*s),
{
    let mut r = String::new();
    push_str(&mut r, "  ");
    push_str(&mut r, s.chip.as_str());
    push_char(&mut r, '/');
    push_str(&mut r, s.label.as_str());
    push_str(&mut r, ": ");
    push_str(&mut r, s.temp.as_str());
    push_char(&mut r, '\u{b0}');
    push_char(&mut r, 'C');
    assert(r@ =~= sensor_line_text(*s));
    r
}

/// The line of a process.
pub fn process_line(p: &ProcessLine) -> (r: String)
    ensures
        r@ == process_line_text(*p),
{
    let mut r = String::new();
    push_str(&mut r, "  ");
    let pid = padded_decimal(p.pid as u64, 6);
    push_str(&mut r, pid.as_str());
    push_char(&mut r, ' ');
    push_str(&mut r, p.cpu.as_str());
    push_str(&mut r, "%  ");
    push_str(&mut r, p.name.as_str());
    push_str(&mut r, " (");
    let mem = format_bytes(p.memory_bytes);
    push_str(&mut r, mem.as_str());
    push_char(&mut r, ')');
    assert(r@ =~= process_line_text(*p));
    r
}

/// The value of the entries of `out`.
pub open spec fn entries_text(out: Seq<MenuEntry>) -> Seq<EntryText> {
    out.map_values(|e: MenuEntry| entry_text(e))
}

fn push_head(out: &mut Vec<MenuEntry>, f: &CpuFacts)
    ensures
        entries_text(final(out)@) == entries_text(old(out)@) + head_entries(*f),
{
    let ghost a0 = entries_text(out@);
    let mut t = String::new();
    push_str(&mut t, "CPU Temp: ");
    match &f.temperature {
        Some(x) => {
            push_str(&mut t, x.as_str());
            push_char(&mut t, '\u{b0}');
            push_char(&mut t, 'C');
        },
        None => push_str(&mut t, "N/A"),
    }
    proof {
        if f.temperature is Some {
            assert(t@ =~= "CPU Temp: "@ + (f.temperature.unwrap()@ + celsius()));
        } else {
            assert(t@ =~= "CPU Temp: "@ + "N/A"@);
        }
    }
    label(out, t);
    let mut u = String::new();
    push_str(&mut u, "CPU Usage: ");
    push_str(&mut u, f.usage.as_str());
    push_char(&mut u, '%');
    assert(u@ =~= "CPU Usage: "@ + f.usage@ + seq!['%']);
    label(out, u);
    assert(entries_text(out@) =~= a0 + head_entries(*f));
}

fn push_frequency_and_load(out: &mut Vec<MenuEntry>, f: &CpuFacts)
    ensures
        entries_text(final(out)@) == entries_text(old(out)@) + frequency_entries(*f) + load_entries(
            *f,
        ),
{
    let ghost a0 = entries_text(out@);
    match &f.frequency {
        Some(x) => label(out, text3("Frequency: ", x.as_str(), " MHz")),
        None => {},
    }
    let ghost a1 = entries_text(out@);
    assert(a1 =~= a0 + frequency_entries(*f));
    match &f.load {
        Some(l) => {
            let mut s = String::new();
            push_str(&mut s, "Load avg: ");
            push_str(&mut s, l.0.as_str());
            push_str(&mut s, " / ");
            push_str(&mut s, l.1.as_str());
            push_str(&mut s, " / ");
            push_str(&mut s, l.2.as_str());
            assert(s@ =~= "Load avg: "@ + l.0@ + " / "@ + l.1@ + " / "@ + l.2@);
            label(out, s);
        },
        None => {},
    }
    assert(entries_text(out@) =~= a1 + load_entries(*f));
}

fn push_cores(out: &mut Vec<MenuEntry>, f: &CpuFacts)
    ensures
        entries_text(final(out)@) == entries_text(old(out)@) + cores_entries(*f),
{
    let ghost a0 = entries_text(out@);
    let mut c = String::new();
    push_str(&mut c, "Cores: ");
    push_decimal(&mut c, f.logical_cores as u64);
    match f.physical_cores {
        Some(p) => {
            push_str(&mut c, " logical / ");
            push_decimal(&mut c, p as u64);
            push_str(&mut c, " physical");
        },
        None => {},
    }
    assert(c@ =~= "Cores: "@ + decimal(f.logical_cores as nat) + physical_text(f.physical_cores));
    label(out, c);
    match &f.model {
        Some(m) => label(out, m.clone()),
        None => {},
    }
    entry(out, MenuEntry::Separator);
    assert(entries_text(out@) =~= a0 + cores_entries(*f));
}

fn push_sensors(out: &mut Vec<MenuEntry>, f: &CpuFacts)
    ensures
        entries_text(final(out)@) == entries_text(old(out)@) + sensor_entries(*f),
{
    let ghost a0 = entries_text(out@);
    if f.sensors.len() > 0 {
        label(out, text1("Sensors:"));
        let mut i: usize = 0;
        while i < f.sensors.len()
            invariant
                i <= f.sensors.len(),
                entries_text(out@) == a0 + seq![EntryText::Label("Sensors:"@)]
                    + f.sensors@.take(i as int).map_values(
                    |s: SensorLine| EntryText::Label(sensor_line_text(s)),
                ),
            decreases f.sensors.len() - i,
        {
            label(out, sensor_line(&f.sensors[i]));
            i += 1;
            assert(f.sensors@.take(i as int).map_values(
                |s: SensorLine| EntryText::Label(sensor_line_text(s)),
            ) =~= f.sensors@.take(i - 1).map_values(
                |s: SensorLine| EntryText::Label(sensor_line_text(s)),
            ).push(EntryText::Label(sensor_line_text(f.sensors@[i - 1]))));
        }
        assert(f.sensors@.take(f.sensors.len() as int) =~= f.sensors@);
        entry(out, MenuEntry::Separator);
    }
    assert(entries_text(out@) =~= a0 + sensor_entries(*f));
}

fn push_processes(out: &mut Vec<MenuEntry>, f: &CpuFacts)
    ensures
        entries_text(final(out)@) == entries_text(old(out)@) + process_entries(*f),
{
    let ghost a0 = entries_text(out@);
    if f.processes.len() > 0 {
        let mut h = String::new();
        push_str(&mut h, "Top processes (");
        push_decimal(&mut h, f.processes.len() as u64);
        push_str(&mut h, "):");
        label(out, h);
        let mut i: usize = 0;
        while i < f.processes.len()
            invariant
                i <= f.processes.len(),
                entries_text(out@) == a0 + seq![
                    EntryText::Label(
                        "Top processes ("@ + decimal(f.processes.len() as nat) + "):"@,
                    ),
                ] + f.processes@.take(i as int).map_values(
                    |p: ProcessLine| EntryText::Label(process_line_text(p)),
                ),
            decreases f.processes.len() - i,
        {
            label(out, process_line(&f.processes[i]));
            i += 1;
            assert(f.processes@.take(i as int).map_values(
                |p: ProcessLine| EntryText::Label(process_line_text(p)),
            ) =~= f.processes@.take(i - 1).map_values(
                |p: ProcessLine| EntryText::Label(process_line_text(p)),
            ).push(EntryText::Label(process_line_text(f.processes@[i - 1]))));
        }
        assert(f.processes@.take(f.processes.len() as int) =~= f.processes@);
        entry(out, MenuEntry::Separator);
    }
    assert(entries_text(out@) =~= a0 + process_entries(*f));
}

fn push_tail(out: &mut Vec<MenuEntry>, f: &CpuFacts, url: &str)
    ensures
        entries_text(final(out)@) == entries_text(old(out)@) + tail_entries(*f, url@),
{
    let ghost a0 = entries_text(out@);
    label(out, text2("Backend: ", url));
    label(out, text2("Updated: ", short_time(f.timestamp.as_str())));
    entry(out, MenuEntry::Separator);
    assert(entries_text(out@) =~= a0 + tail_entries(*f, url@));
}

/// The entries of a connected snapshot.
fn connected_menu(out: &mut Vec<MenuEntry>, f: &CpuFacts, url: &str)
    ensures
        entries_text(final(out)@) == entries_text(old(out)@) + connected_entries(*f, url@),
{
    let ghost a0 = entries_text(out@);
    push_head(out, f);
    push_frequency_and_load(out, f);
    push_cores(out, f);
    push_sensors(out, f);
    push_processes(out, f);
    push_tail(out, f, url);
    assert(entries_text(out@) =~= a0 + connected_entries(*f, url@));
}

/// The tray's menu (see `menu_text`).
pub fn menu_entries(view: &TrayView, backend_url: &str) -> (r: Vec<MenuEntry>)
    ensures
        r@.map_values(|e: MenuEntry| entry_text(e)) == menu_text(*view, backend_url@),
{
    let mut out: Vec<MenuEntry> = Vec::new();
    assert(out@.map_values(|e: MenuEntry| entry_text(e)) =~= Seq::<EntryText>::empty());
    match view {
        TrayView::Connecting => {
            let mut s = String::new();
            push_str(&mut s, "Connecting to ");
            push_str(&mut s, backend_url);
            push_char(&mut s, '\u{2026}');
            assert(s@ =~= "Connecting to "@ + backend_url@ + seq!['\u{2026}']);
            label(&mut out, s);
            entry(&mut out, MenuEntry::Separator);
        },
        TrayView::Disconnected(err) => {
            label(&mut out, text2("Backend offline: ", err.as_str()));
            label(&mut out, text2("Backend: ", backend_url));
            entry(&mut out, MenuEntry::Separator);
        },
        TrayView::Connected(f) => {
            connected_menu(&mut out, f, backend_url);
        },
    }
    let ghost mid = out@.map_values(|e: MenuEntry| entry_text(e));
    entry(&mut out, MenuEntry::Repository);
    entry(&mut out, MenuEntry::Coffee);
    entry(&mut out, MenuEntry::Separator);
    entry(&mut out, MenuEntry::Quit);
    proof {
        assert(out@.map_values(|e: MenuEntry| entry_text(e)) =~= menu_text(*view, backend_url@));
    }
    out
}

/// `ls` joined by newlines.
pub open spec fn join_lines(ls: Seq<Seq<char>>) -> Seq<char>
    decreases ls.len(),
{
    if ls.len() == 0 {
        seq![]
    } else if ls.len() == 1 {
        ls[0]
    } else {
        join_lines(ls.drop_last()) + seq!['\n'] + ls.last()
    }
}

/// The lines that describe a connected snapshot in the tooltip.
pub open spec fn describe_lines(f: CpuFacts) -> Seq<Seq<char>> {
    (match f.model {
        Some(m) => seq![m@],
        None => seq![],
    }) + (match f.temperature {
        Some(t) => seq!["Temp: "@ + t@ + celsius()],
        None => seq![],
    }) + seq!["Usage: "@ + f.usage@ + seq!['%']] + (match f.load {
        Some(l) => seq!["Load: "@ + l.0@ + " / "@ + l.1@ + " / "@ + l.2@],
        None => seq![],
    }) + (match f.kernel {
        Some(k) => seq!["Kernel: "@ + k@],
        None => seq![],
    })
}

/// The tooltip's text.
pub open spec fn tooltip_text(view: TrayView, url: Seq<char>) -> Seq<char> {
    match view {
        TrayView::Connecting => "Connecting to "@ + url,
        TrayView::Connected(f) => join_lines(describe_lines(f)),
        TrayView::Disconnected(err) => "Backend offline: "@ + err@,
    }
}

fn join(ls: &Vec<String>) -> (r: String)
    ensures
        r@ == join_lines(ls@.map_values(|s: String| s@)),
{
    let ghost v = ls@.map_values(|s: String| s@);
    let mut s = String::new();
    let mut i: usize = 0;
    while i < ls.len()
        invariant
            i <= ls.len(),
            v == ls@.map_values(|s: String| s@),
            s@ == join_lines(v.take(i as int)),
        decreases ls.len() - i,
    {
        if i > 0 {
            push_char(&mut s, '\n');
        }
        push_str(&mut s, ls[i].as_str());
        proof {
            let t = v.take(i + 1);
            assert(t.drop_last() =~= v.take(i as int));
            assert(t.last() == ls@[i as int]@);
            if i == 0 {
                assert(t.len() == 1);
            }
        }
        i += 1;
    }
    assert(v.take(ls.len() as int) =~= v);
    s
}

fn push_line(ls: &mut Vec<String>, s: String)
    ensures
        final(ls)@.map_values(|s: String| s@) == old(ls)@.map_values(|s: String| s@).push(s@),
{
    let ghost before = ls@;
    let ghost t = s@;
    ls.push(s);
    assert(ls@.map_values(|s: String| s@) =~= before.map_values(|s: String| s@).push(t));
}

/// The tooltip's text (see `tooltip_text`).
pub fn tooltip_description(view: &TrayView, backend_url: &str) -> (r: String)
    ensures
        r@ == tooltip_text(*view, backend_url@),
{
    match view {
        TrayView::Connecting => text2("Connecting to ", backend_url),
        TrayView::Disconnected(err) => text2("Backend offline: ", err.as_str()),
        TrayView::Connected(f) => {
            let mut ls: Vec<String> = Vec::new();
            let ghost l0 = ls@.map_values(|s: String| s@);
            match &f.model {
                Some(m) => push_line(&mut ls, m.clone()),
                None => {},
            }
            match &f.temperature {
                Some(t) => {
                    let mut s = String::new();
                    push_str(&mut s, "Temp: ");
                    push_str(&mut s, t.as_str());
                    push_char(&mut s, '\u{b0}');
                    push_char(&mut s, 'C');
                    assert(s@ =~= "Temp: "@ + t@ + celsius());
                    push_line(&mut ls, s);
                },
                None => {},
            }
            let mut u = String::new();
            push_str(&mut u, "Usage: ");
            push_str(&mut u, f.usage.as_str());
            push_char(&mut u, '%');
            assert(u@ =~= "Usage: "@ + f.usage@ + seq!['%']);
            push_line(&mut ls, u);
            match &f.load {
                Some(l) => {
                    let mut s = String::new();
                    push_str(&mut s, "Load: ");
                    push_str(&mut s, l.0.as_str());
                    push_str(&mut s, " / ");
                    push_str(&mut s, l.1.as_str());
                    push_str(&mut s, " / ");
                    push_str(&mut s, l.2.as_str());
                    assert(s@ =~= "Load: "@ + l.0@ + " / "@ + l.1@ + " / "@ + l.2@);
                    push_line(&mut ls, s);
                },
                None => {},
            }
            match &f.kernel {
                Some(k) => push_line(&mut ls, text2("Kernel: ", k.as_str())),
                None => {},
            }
            proof {
                        assert(l0 =~= Seq::<Seq<char>>::empty());
                assert(ls@.map_values(|s: String| s@) =~= describe_lines(*f));
            }
            join(&ls)
        },
    }
}

} // verus!
