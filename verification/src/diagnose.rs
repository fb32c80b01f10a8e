//! Why this machine has no fan control, and what would give it some.
//!
//! Discovery finding nothing is the common case on hardware nobody has tried,
//! and an empty page that says "not supported" tells its owner nothing about
//! whether the machine cannot do it or whether a module is simply not loaded.
//!
//! Nothing here is a fix. It reads `/proc/modules` and the kernel config and
//! reports; loading a module is the owner's decision, and the line to type is
//! printed rather than run.

use vstd::prelude::*;

use crate::sysfs::{read_bytes, read_text, Root, RootView};
use crate::text::{
    cat, cat3, chars_eq, chars_of, contains, contains_exec, lines, lines_of, replace_char,
    replace_char_exec, string_of, string_views, to_lower, to_lower_exec, words, words_of,
};

verus! {

pub const OSRELEASE: &'static str = "/proc/sys/kernel/osrelease";

pub const CONFIG_GZ: &'static str = "/proc/config.gz";

/// The text of an attribute, or nothing where it cannot be read.
pub open spec fn text_or_empty(t: Option<Seq<char>>) -> Seq<char> {
    match t {
        Some(s) => s,
        None => seq![],
    }
}

pub open spec fn opt_string(o: Option<String>) -> Option<Seq<char>> {
    match o {
        Some(s) => Some(s@),
        None => None,
    }
}

pub open spec fn opt_str(o: Option<&str>) -> Option<Seq<char>> {
    match o {
        Some(s) => Some(s@),
        None => None,
    }
}

/// A driver that would expose fan or thermal control on some machines.
pub struct Candidate {
    pub module: &'static str,
    /// Matched case-insensitively against the DMI system vendor. Empty means
    /// any machine: the Super-I/O chips on desktop boards are not tied to the
    /// brand on the case.
    pub vendor: &'static str,
    pub gives: &'static str,
    /// The kernel config symbol, so a kernel that never built it can be told
    /// apart from one that merely has not loaded it.
    pub config: &'static str,
}

pub struct CandidateView {
    pub module: Seq<char>,
    pub vendor: Seq<char>,
    pub gives: Seq<char>,
    pub config: Seq<char>,
}

impl View for Candidate {
    type V = CandidateView;

    open spec fn view(&self) -> CandidateView {
        CandidateView {
            module: self.module@,
            vendor: self.vendor@,
            gives: self.gives@,
            config: self.config@,
        }
    }
}

pub open spec fn candidate_views(v: Seq<Candidate>) -> Seq<CandidateView> {
    Seq::new(v.len(), |i: int| v[i]@)
}

pub open spec fn row(module: &str, vendor: &str, gives: &str, config: &str) -> CandidateView {
    CandidateView { module: module@, vendor: vendor@, gives: gives@, config: config@ }
}

pub open spec fn candidate_table() -> Seq<CandidateView> {
    seq![
        row(
            "asus_nb_wmi",
            "asus",
            "platform profile, throttle policy and fan modes",
            "CONFIG_ASUS_NB_WMI",
        ),
        row("asus_ec_sensors", "asus", "fan speeds and temperatures", "CONFIG_SENSORS_ASUS_EC"),
        row("asus_wmi_sensors", "asus", "fan speeds on ASUS boards", "CONFIG_SENSORS_ASUS_WMI"),
        row(
            "thinkpad_acpi",
            "lenovo",
            "fan levels and speed (load it with fan_control=1 to set them)",
            "CONFIG_THINKPAD_ACPI",
        ),
        row("ideapad_laptop", "lenovo", "platform profile", "CONFIG_IDEAPAD_LAPTOP"),
        row("dell_smm_hwmon", "dell", "fan speeds and PWM control", "CONFIG_SENSORS_DELL_SMM"),
        row("hp_wmi", "hp", "platform profile", "CONFIG_HP_WMI"),
        row(
            "applesmc",
            "apple",
            "fan speeds and minimum-speed control",
            "CONFIG_SENSORS_APPLESMC",
        ),
        row("msi_ec", "micro-star", "platform profile and fan modes", "CONFIG_MSI_EC"),
        row("acer_wmi", "acer", "platform profile", "CONFIG_ACER_WMI"),
        row("gigabyte_wmi", "gigabyte", "board temperatures", "CONFIG_GIGABYTE_WMI"),
        row(
            "framework_laptop",
            "framework",
            "fan speeds and thermal control",
            "CONFIG_FRAMEWORK_LAPTOP",
        ),
        row("nct6775", "", "PWM fan control on most desktop boards", "CONFIG_SENSORS_NCT6775"),
        row("it87", "", "PWM fan control on ITE Super-I/O boards", "CONFIG_SENSORS_IT87"),
    ]
}

/// The drivers worth suggesting.
pub fn candidates() -> (r: Vec<Candidate>)
    ensures
        candidate_views(r@) == candidate_table(),
{
    let r = vec![
        Candidate {
            module: "asus_nb_wmi",
            vendor: "asus",
            // Which of these a given model publishes varies; the wording
            // promises the driver, not a fixed set of files.
            gives: "platform profile, throttle policy and fan modes",
            config: "CONFIG_ASUS_NB_WMI",
        },
        Candidate {
            module: "asus_ec_sensors",
            vendor: "asus",
            gives: "fan speeds and temperatures",
            config: "CONFIG_SENSORS_ASUS_EC",
        },
        Candidate {
            module: "asus_wmi_sensors",
            vendor: "asus",
            gives: "fan speeds on ASUS boards",
            config: "CONFIG_SENSORS_ASUS_WMI",
        },
        Candidate {
            module: "thinkpad_acpi",
            vendor: "lenovo",
            gives: "fan levels and speed (load it with fan_control=1 to set them)",
            config: "CONFIG_THINKPAD_ACPI",
        },
        Candidate {
            module: "ideapad_laptop",
            vendor: "lenovo",
            gives: "platform profile",
            config: "CONFIG_IDEAPAD_LAPTOP",
        },
        Candidate {
            module: "dell_smm_hwmon",
            vendor: "dell",
            gives: "fan speeds and PWM control",
            config: "CONFIG_SENSORS_DELL_SMM",
        },
        Candidate {
            module: "hp_wmi",
            vendor: "hp",
            gives: "platform profile",
            config: "CONFIG_HP_WMI",
        },
        Candidate {
            module: "applesmc",
            vendor: "apple",
            gives: "fan speeds and minimum-speed control",
            config: "CONFIG_SENSORS_APPLESMC",
        },
        Candidate {
            module: "msi_ec",
            vendor: "micro-star",
            gives: "platform profile and fan modes",
            config: "CONFIG_MSI_EC",
        },
        Candidate {
            module: "acer_wmi",
            vendor: "acer",
            gives: "platform profile",
            config: "CONFIG_ACER_WMI",
        },
        Candidate {
            module: "gigabyte_wmi",
            vendor: "gigabyte",
            gives: "board temperatures",
            config: "CONFIG_GIGABYTE_WMI",
        },
        Candidate {
            module: "framework_laptop",
            vendor: "framework",
            gives: "fan speeds and thermal control",
            config: "CONFIG_FRAMEWORK_LAPTOP",
        },
        Candidate {
            module: "nct6775",
            vendor: "",
            gives: "PWM fan control on most desktop boards",
            config: "CONFIG_SENSORS_NCT6775",
        },
        Candidate {
            module: "it87",
            vendor: "",
            gives: "PWM fan control on ITE Super-I/O boards",
            config: "CONFIG_SENSORS_IT87",
        },
    ];
    assert(candidate_views(r@) =~= candidate_table());
    r
}

#[derive(Clone, Copy, Debug, PartialEq, Eq, Structural)]
pub enum Availability {
    /// Built as a module and not loaded. `modprobe` away.
    NotLoaded,
    /// Loaded already, and still gave nothing -- so the hardware, not the
    /// software, is the limit.
    Loaded,
    /// The running kernel never built it.
    NotBuilt,
    /// No kernel config to read, so nobody knows.
    Unknown,
}

#[derive(Clone, Debug)]
pub struct Suggestion {
    pub module: String,
    pub gives: String,
    pub availability: Availability,
    pub config: String,
}

pub struct SuggestionView {
    pub module: Seq<char>,
    pub gives: Seq<char>,
    pub availability: Availability,
    pub config: Seq<char>,
}

impl View for Suggestion {
    type V = SuggestionView;

    open spec fn view(&self) -> SuggestionView {
        SuggestionView {
            module: self.module@,
            gives: self.gives@,
            availability: self.availability,
            config: self.config@,
        }
    }
}

pub open spec fn suggestion_views(v: Seq<Suggestion>) -> Seq<SuggestionView> {
    Seq::new(v.len(), |i: int| v[i]@)
}

/// The line a suggestion is shown as.
pub open spec fn line_text(s: SuggestionView) -> Seq<char> {
    match s.availability {
        Availability::NotLoaded => s.module + " would add "@ + s.gives
            + " — it is built for this kernel but not loaded:\n    sudo modprobe "@ + s.module,
        Availability::NotBuilt => s.module + " would add "@ + s.gives
            + ", but this kernel was built without "@ + s.config + "."@,
        Availability::Loaded => s.module + " is loaded and exposes nothing here, so this machine's firmware does not offer "@
            + s.gives + "."@,
        Availability::Unknown => s.module + " might add "@ + s.gives
            + "; this kernel's configuration is not readable, so try:\n    sudo modprobe "@
            + s.module,
    }
}

impl Suggestion {
    /// One line, as it appears in the window and in `--probe`.
    pub fn line(&self) -> (r: String)
        ensures
            r@ == line_text(self@),
    {
        let m = self.module.as_str();
        let g = self.gives.as_str();
        match self.availability {
            Availability::NotLoaded => cat3(m, " would add ", g).concat(
                " — it is built for this kernel but not loaded:\n    sudo modprobe ",
            ).concat(m),
            Availability::NotBuilt => cat3(m, " would add ", g).concat(
                ", but this kernel was built without ",
            ).concat(self.config.as_str()).concat("."),
            Availability::Loaded => cat3(
                m,
                " is loaded and exposes nothing here, so this machine's firmware does not offer ",
                g,
            ).concat("."),
            Availability::Unknown => cat3(m, " might add ", g).concat(
                "; this kernel's configuration is not readable, so try:\n    sudo modprobe ",
            ).concat(m),
        }
    }
}

#[derive(Clone, Debug)]
pub struct Report {
    pub vendor: String,
    pub product: String,
    pub kernel: String,
    pub suggestions: Vec<Suggestion>,
}

pub struct ReportView {
    pub vendor: Seq<char>,
    pub product: Seq<char>,
    pub kernel: Seq<char>,
    pub suggestions: Seq<SuggestionView>,
}

impl View for Report {
    type V = ReportView;

    open spec fn view(&self) -> ReportView {
        ReportView {
            vendor: self.vendor@,
            product: self.product@,
            kernel: self.kernel@,
            suggestions: suggestion_views(self.suggestions@),
        }
    }
}

pub open spec fn vendor_of(r: RootView) -> Seq<char> {
    text_or_empty(read_text(r, "/sys/class/dmi/id/sys_vendor"@))
}

pub open spec fn product_of(r: RootView) -> Seq<char> {
    text_or_empty(read_text(r, "/sys/class/dmi/id/product_name"@))
}

pub open spec fn kernel_of(r: RootView) -> Seq<char> {
    text_or_empty(read_text(r, OSRELEASE@))
}

fn read_or_empty(root: &Root, absolute: &str) -> (r: String)
    ensures
        r@ == text_or_empty(read_text(root@, absolute@)),
{
    match root.read(absolute) {
        Some(t) => t,
        None => String::new(),
    }
}

/// The DMI system vendor, or nothing.
pub fn vendor(root: &Root) -> (r: String)
    ensures
        r@ == vendor_of(root@),
{
    read_or_empty(root, "/sys/class/dmi/id/sys_vendor")
}

/// The DMI product name, or nothing.
pub fn product(root: &Root) -> (r: String)
    ensures
        r@ == product_of(root@),
{
    read_or_empty(root, "/sys/class/dmi/id/product_name")
}

/// The first word of each line, with `-` made `_`: `modprobe` accepts
/// either, `/proc/modules` uses underscores.
pub open spec fn module_names(ls: Seq<Seq<char>>) -> Seq<Seq<char>>
    decreases ls.len(),
{
    if ls.len() == 0 {
        seq![]
    } else {
        let rest = module_names(ls.drop_last());
        let w = words(ls.last());
        if w.len() > 0 {
            rest.push(replace_char(w[0], '-', '_'))
        } else {
            rest
        }
    }
}

pub open spec fn loaded_of(r: RootView) -> Seq<Seq<char>> {
    module_names(lines(text_or_empty(read_text(r, "/proc/modules"@))))
}

/// The modules the kernel has loaded.
pub fn loaded_modules(root: &Root) -> (r: Vec<String>)
    ensures
        string_views(r@) == loaded_of(root@),
{
    let text = read_or_empty(root, "/proc/modules");
    let ls = lines_of(&chars_of(text.as_str()));
    let ghost l = crate::text::views(ls@);
    let mut out: Vec<String> = Vec::new();
    let mut i: usize = 0;
    while i < ls.len()
        invariant
            i <= ls@.len(),
            l == crate::text::views(ls@),
            l == lines(text@),
            string_views(out@) == module_names(l.take(i as int)),
        decreases ls@.len() - i,
    {
        proof {
            let t = l.take(i + 1);
            assert(t.drop_last() =~= l.take(i as int));
            assert(t.last() == ls@[i as int]@);
        }
        let ws = words_of(&ls[i]);
        if ws.len() > 0 {
            let name = string_of(&replace_char_exec(&ws[0], '-', '_'));
            let ghost before = out@;
            out.push(name);
            assert(string_views(out@) =~= string_views(before).push(out@.last()@));
        }
        i = i + 1;
    }
    assert(l.take(ls@.len() as int) =~= l);
    out
}

/// What decompressing some gzip bytes to UTF-8 text gives, where it
/// succeeds.
pub uninterp spec fn gunzip_text(bytes: Seq<u8>) -> Option<Seq<char>>;

/// `flate2::read::GzDecoder` read to a string: the text of the first gzip
/// member of `bytes`. The decompression itself is named, not restated.
#[verifier::external_body]
fn gunzip(bytes: &[u8]) -> (r: Option<String>)
    ensures
        opt_string(r) == gunzip_text(bytes@),
{
    let mut text = String::new();
    match std::io::Read::read_to_string(&mut flate2::read::GzDecoder::new(bytes), &mut text) {
        Ok(_) => Some(text),
        Err(_) => None,
    }
}

/// The decompressed `/proc/config.gz`, where there is one.
pub open spec fn gz_config(r: RootView) -> Option<Seq<char>> {
    match read_bytes(r, CONFIG_GZ@) {
        Some(b) => gunzip_text(b),
        None => None,
    }
}

pub open spec fn is_config(t: Option<Seq<char>>) -> bool {
    t matches Some(c) && contains(c, "CONFIG_"@)
}

/// The places a distribution may keep the kernel's configuration as text,
/// in the order they are tried.
pub open spec fn config_paths(release: Seq<char>) -> Seq<Seq<char>> {
    seq!["/boot/config-"@ + release, "/boot/config"@, "/lib/modules/"@ + release + "/config"@]
}

/// The first of `paths` whose text is a configuration.
pub open spec fn first_config(r: RootView, paths: Seq<Seq<char>>) -> Option<Seq<char>>
    decreases paths.len(),
{
    if paths.len() == 0 {
        None
    } else if is_config(read_text(r, paths[0])) {
        read_text(r, paths[0])
    } else {
        first_config(r, paths.drop_first())
    }
}

/// The kernel configuration, given what `/proc/config.gz` decompressed to:
/// that, where it is a configuration, else the first text file that is.
pub open spec fn config_choice(r: RootView, gz: Option<Seq<char>>) -> Option<Seq<char>> {
    if is_config(gz) {
        gz
    } else {
        first_config(r, config_paths(kernel_of(r)))
    }
}

pub open spec fn config_of(r: RootView) -> Option<Seq<char>> {
    config_choice(r, gz_config(r))
}

/// The kernel configuration once `/proc/config.gz` has been decompressed
/// (or not): `gz`, where it reads as a configuration, else the first of
/// `/boot/config-<release>`, `/boot/config` and
/// `/lib/modules/<release>/config` that does.
pub fn config_after(root: &Root, gz: Option<String>) -> (r: Option<String>)
    ensures
        opt_string(r) == config_choice(root@, opt_string(gz)),
{
    let marker = chars_of("CONFIG_");
    if let Some(text) = gz {
        if contains_exec(&chars_of(text.as_str()), &marker) {
            return Some(text);
        }
    }
    let release = read_or_empty(root, OSRELEASE);
    let paths = vec![
        cat("/boot/config-", release.as_str()),
        String::from_str("/boot/config"),
        cat3("/lib/modules/", release.as_str(), "/config"),
    ];
    let ghost ps = config_paths(release@);
    assert(string_views(paths@) =~= ps);
    assert(ps.skip(0) =~= ps);
    let mut i: usize = 0;
    while i < paths.len()
        invariant
            i <= paths@.len(),
            marker@ == "CONFIG_"@,
            string_views(paths@) == ps,
            release@ == kernel_of(root@),
            ps == config_paths(release@),
            !is_config(opt_string(gz)),
            first_config(root@, ps) == first_config(root@, ps.skip(i as int)),
        decreases paths@.len() - i,
    {
        assert(ps.skip(i as int).drop_first() =~= ps.skip(i + 1));
        assert(ps.skip(i as int)[0] == paths@[i as int]@);
        if let Some(text) = root.read(paths[i].as_str()) {
            if contains_exec(&chars_of(text.as_str()), &marker) {
                return Some(text);
            }
        }
        i = i + 1;
    }
    assert(ps.skip(i as int).len() == 0);
    None
}

/// The running kernel's configuration: `/proc/config.gz` on kernels built
/// to publish it, else a text copy where distributions keep one.
pub fn kernel_config(root: &Root) -> (r: Option<String>)
    ensures
        opt_string(r) == config_of(root@),
{
    let gz = match root.read_bytes(CONFIG_GZ) {
        Some(bytes) => gunzip(bytes),
        None => None,
    };
    config_after(root, gz)
}

/// `CONFIG_X=m` or `=y` is built; anything else, such as
/// `# CONFIG_X is not set`, is not.
pub open spec fn availability_of(config: Option<Seq<char>>, symbol: Seq<char>, loaded: bool) -> Availability {
    if loaded {
        Availability::Loaded
    } else {
        match config {
            None => Availability::Unknown,
            Some(c) => if contains(c, symbol + "=m"@) || contains(c, symbol + "=y"@) {
                Availability::NotLoaded
            } else {
                Availability::NotBuilt
            },
        }
    }
}

/// Where a driver stands on this kernel.
pub fn availability(config: Option<&str>, symbol: &str, loaded: bool) -> (r: Availability)
    ensures
        r == availability_of(opt_str(config), symbol@, loaded),
{
    if loaded {
        return Availability::Loaded;
    }
    match config {
        None => Availability::Unknown,
        Some(c) => {
            let text = chars_of(c);
            let m = cat(symbol, "=m");
            let y = cat(symbol, "=y");
            if contains_exec(&text, &chars_of(m.as_str())) || contains_exec(
                &text,
                &chars_of(y.as_str()),
            ) {
                Availability::NotLoaded
            } else {
                Availability::NotBuilt
            }
        },
    }
}

pub open spec fn offered(c: CandidateView, vendor_lower: Seq<char>) -> bool {
    c.vendor.len() == 0 || contains(vendor_lower, c.vendor)
}

pub open spec fn candidate_suggestion(
    c: CandidateView,
    config: Option<Seq<char>>,
    loaded: Seq<Seq<char>>,
) -> SuggestionView {
    SuggestionView {
        module: c.module,
        gives: c.gives,
        availability: availability_of(config, c.config, loaded.contains(c.module)),
        config: c.config,
    }
}

/// A module that is loaded and generic -- nct6775 on a laptop with no
/// Super-I/O -- is noise. "Loaded" is kept only for a vendor's own driver,
/// where "it is loaded and there is still nothing" is the answer.
pub open spec fn worth_saying(s: SuggestionView) -> bool {
    s.availability != Availability::Loaded || exists|j: int|
        0 <= j < candidate_table().len() && #[trigger] candidate_table()[j].module == s.module
            && candidate_table()[j].vendor.len() > 0
}

pub open spec fn suggestions_from(
    cs: Seq<CandidateView>,
    vendor_lower: Seq<char>,
    config: Option<Seq<char>>,
    loaded: Seq<Seq<char>>,
) -> Seq<SuggestionView>
    decreases cs.len(),
{
    if cs.len() == 0 {
        seq![]
    } else {
        let rest = suggestions_from(cs.drop_last(), vendor_lower, config, loaded);
        let c = cs.last();
        if offered(c, vendor_lower) && worth_saying(candidate_suggestion(c, config, loaded)) {
            rest.push(candidate_suggestion(c, config, loaded))
        } else {
            rest
        }
    }
}

proof fn lemma_suggestions_from(
    cs: Seq<CandidateView>,
    vendor_lower: Seq<char>,
    config: Option<Seq<char>>,
    loaded: Seq<Seq<char>>,
)
    ensures
        forall|i: int|
            0 <= i < suggestions_from(cs, vendor_lower, config, loaded).len() ==> {
                let s = #[trigger] suggestions_from(cs, vendor_lower, config, loaded)[i];
                &&& worth_saying(s)
                &&& exists|j: int|
                    0 <= j < cs.len() && offered(cs[j], vendor_lower) && s
                        == candidate_suggestion(#[trigger] cs[j], config, loaded)
            },
    decreases cs.len(),
{
    if cs.len() > 0 {
        let init = cs.drop_last();
        lemma_suggestions_from(init, vendor_lower, config, loaded);
        let rest = suggestions_from(init, vendor_lower, config, loaded);
        let all = suggestions_from(cs, vendor_lower, config, loaded);
        assert forall|i: int| 0 <= i < all.len() implies {
            let s = #[trigger] all[i];
            &&& worth_saying(s)
            &&& exists|j: int|
                0 <= j < cs.len() && offered(cs[j], vendor_lower) && s == candidate_suggestion(
                    #[trigger] cs[j],
                    config,
                    loaded,
                )
        } by {
            if i < rest.len() {
                assert(all[i] == rest[i]);
                let j = choose|j: int|
                    0 <= j < init.len() && offered(init[j], vendor_lower) && rest[i]
                        == candidate_suggestion(#[trigger] init[j], config, loaded);
                assert(cs[j] == init[j]);
            } else {
                assert(cs[cs.len() - 1] == cs.last());
            }
        }
    }
}

/// What the diagnosis says is always about a driver it knows and that fits
/// this machine's vendor (or any vendor, for a board's generic chips), and a
/// driver that is loaded is mentioned only where it is the vendor's own --
/// where "it is loaded and there is still nothing" is the answer someone
/// needs.
pub proof fn lemma_report_says_only_what_helps(r: RootView)
    ensures
        forall|i: int|
            0 <= i < report_of(r).suggestions.len() ==> {
                let s = #[trigger] report_of(r).suggestions[i];
                &&& worth_saying(s)
                &&& exists|j: int|
                    0 <= j < candidate_table().len() && offered(
                        candidate_table()[j],
                        to_lower(vendor_of(r)),
                    ) && s == candidate_suggestion(
                        #[trigger] candidate_table()[j],
                        config_of(r),
                        loaded_of(r),
                    )
            },
{
    lemma_suggestions_from(candidate_table(), to_lower(vendor_of(r)), config_of(r), loaded_of(r));
}

pub open spec fn report_of(r: RootView) -> ReportView {
    ReportView {
        vendor: vendor_of(r),
        product: product_of(r),
        kernel: kernel_of(r),
        suggestions: suggestions_from(
            candidate_table(),
            to_lower(vendor_of(r)),
            config_of(r),
            loaded_of(r),
        ),
    }
}

fn has_module(loaded: &Vec<String>, m: &str) -> (b: bool)
    ensures
        b == string_views(loaded@).contains(m@),
{
    let want = chars_of(m);
    let mut i: usize = 0;
    while i < loaded.len()
        invariant
            i <= loaded@.len(),
            want@ == m@,
            forall|j: int| 0 <= j < i ==> string_views(loaded@)[j] != m@,
        decreases loaded@.len() - i,
    {
        if chars_eq(&chars_of(loaded[i].as_str()), &want) {
            assert(string_views(loaded@)[i as int] == m@);
            return true;
        }
        i = i + 1;
    }
    false
}

fn vendors_own(table: &Vec<Candidate>, module: &str) -> (b: bool)
    requires
        candidate_views(table@) == candidate_table(),
    ensures
        b == exists|j: int|
            0 <= j < candidate_table().len() && #[trigger] candidate_table()[j].module == module@
                && candidate_table()[j].vendor.len() > 0,
{
    let want = chars_of(module);
    let mut i: usize = 0;
    while i < table.len()
        invariant
            i <= table@.len(),
            want@ == module@,
            candidate_views(table@) == candidate_table(),
            forall|j: int|
                0 <= j < i ==> !(#[trigger] candidate_table()[j].module == module@
                    && candidate_table()[j].vendor.len() > 0),
        decreases table@.len() - i,
    {
        assert(candidate_table()[i as int] == table@[i as int]@);
        if chars_eq(&chars_of(table[i].module), &want) && table[i].vendor.unicode_len() > 0 {
            assert(candidate_table()[i as int].module == module@);
            assert(candidate_table()[i as int].vendor.len() > 0);
            return true;
        }
        i = i + 1;
    }
    false
}

/// What this machine could have that it does not.
pub fn report(root: &Root) -> (r: Report)
    ensures
        r@ == report_of(root@),
{
    let vendor = vendor(root);
    let product = product(root);
    let loaded = loaded_modules(root);
    let config = kernel_config(root);
    let vendor_lower = to_lower_exec(&chars_of(vendor.as_str()));
    let table = candidates();
    let mut suggestions: Vec<Suggestion> = Vec::new();
    let mut i: usize = 0;
    while i < table.len()
        invariant
            i <= table@.len(),
            candidate_views(table@) == candidate_table(),
            vendor_lower@ == to_lower(vendor@),
            suggestion_views(suggestions@) == suggestions_from(
                candidate_table().take(i as int),
                vendor_lower@,
                opt_string(config),
                string_views(loaded@),
            ),
        decreases table@.len() - i,
    {
        proof {
            let t = candidate_table().take(i + 1);
            assert(t.drop_last() =~= candidate_table().take(i as int));
            assert(t.last() == table@[i as int]@);
        }
        let c = &table[i];
        let wanted = c.vendor.unicode_len() == 0 || contains_exec(
            &vendor_lower,
            &chars_of(c.vendor),
        );
        if wanted {
            let is_loaded = has_module(&loaded, c.module);
            let a = match &config {
                Some(t) => availability(Some(t.as_str()), c.config, is_loaded),
                None => availability(None, c.config, is_loaded),
            };
            let keep = match a {
                Availability::Loaded => vendors_own(&table, c.module),
                _ => true,
            };
            if keep {
                let ghost before = suggestions@;
                suggestions.push(
                    Suggestion {
                        module: String::from_str(c.module),
                        gives: String::from_str(c.gives),
                        availability: a,
                        config: String::from_str(c.config),
                    },
                );
                assert(suggestion_views(suggestions@) =~= suggestion_views(before).push(
                    suggestions@.last()@,
                ));
            }
        }
        i = i + 1;
    }
    assert(candidate_table().take(table@.len() as int) =~= candidate_table());
    Report { vendor, product, kernel: read_or_empty(root, OSRELEASE), suggestions }
}

} // verus!
