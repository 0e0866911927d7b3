//! Profiles and settings.
use vstd::prelude::*;

use crate::message::string_view;
use crate::text::{cat, same};

verus! {

pub const SCHEMA_VERSION: u32 = 1;

/// Everything the settings file holds.
#[derive(Debug, Clone)]
pub struct AppConfig {
    pub schema_version: u32,
    pub app: AppSettings,
    pub profiles: Vec<Profile>,
}

#[derive(Debug, Clone)]
pub struct AppSettings {
    pub selected_profile: String,
    pub resume_capture_on_launch: bool,
    pub last_capture_running: bool,
    /// An update stopped a capture, which the next launch takes up again.
    pub resume_after_update: bool,
}

#[derive(Debug, Clone)]
pub struct Profile {
    pub name: String,
    pub endpoint: String,
    /// "client" or "peer" — passed through verbatim to the session layer, which
    /// validates it.
    pub mode: String,
    pub namespace: Option<String>,
    pub key_expr: String,
    pub output_dir: String,
    pub rotate_size_bytes: u64,
    pub rotate_interval_secs: u64,
    pub max_total_size_bytes: u64,
    pub max_age_secs: u64,
}

/// Resolved on-disk locations.
#[derive(Debug, Clone)]
pub struct Paths {
    pub config_file: String,
    pub data_local_dir: String,
}

/// A profile, as a mathematical value.
pub struct ProfileModel {
    pub name: Seq<char>,
    pub endpoint: Seq<char>,
    pub mode: Seq<char>,
    pub namespace: Option<Seq<char>>,
    pub key_expr: Seq<char>,
    pub output_dir: Seq<char>,
    pub rotate_size_bytes: u64,
    pub rotate_interval_secs: u64,
    pub max_total_size_bytes: u64,
    pub max_age_secs: u64,
}

impl View for Profile {
    type V = ProfileModel;

    open spec fn view(&self) -> ProfileModel {
        ProfileModel {
            name: self.name@,
            endpoint: self.endpoint@,
            mode: self.mode@,
            namespace: string_view(self.namespace),
            key_expr: self.key_expr@,
            output_dir: self.output_dir@,
            rotate_size_bytes: self.rotate_size_bytes,
            rotate_interval_secs: self.rotate_interval_secs,
            max_total_size_bytes: self.max_total_size_bytes,
            max_age_secs: self.max_age_secs,
        }
    }
}

/// The settings, as a mathematical value.
pub struct ConfigModel {
    pub schema_version: u32,
    pub selected_profile: Seq<char>,
    pub resume_capture_on_launch: bool,
    pub last_capture_running: bool,
    /// An update stopped a capture, which the next launch takes up again.
    pub resume_after_update: bool,
    pub profiles: Seq<ProfileModel>,
}

/// The models of a list of profiles.
pub open spec fn profile_models(profiles: Seq<Profile>) -> Seq<ProfileModel> {
    Seq::new(profiles.len(), |i: int| profiles[i]@)
}

impl View for AppConfig {
    type V = ConfigModel;

    open spec fn view(&self) -> ConfigModel {
        ConfigModel {
            schema_version: self.schema_version,
            selected_profile: self.app.selected_profile@,
            resume_capture_on_launch: self.app.resume_capture_on_launch,
            last_capture_running: self.app.last_capture_running,
            resume_after_update: self.app.resume_after_update,
            profiles: profile_models(self.profiles@),
        }
    }
}

/// Whether a character separates the parts of a path. Where a backslash does, a slash
/// does too.
pub open spec fn parts_at(c: char, separator: char) -> bool {
    c == separator || separator == '\\' && c == '/'
}

/// Where the part of a path that starts at `from` ends.
pub open spec fn part_end(path: Seq<char>, from: int, separator: char) -> int
    decreases path.len() - from,
{
    if from >= path.len() {
        path.len() as int
    } else if parts_at(path[from], separator) {
        from
    } else {
        part_end(path, from + 1, separator)
    }
}

/// Whether a path starts with a drive, such as `C:`.
pub open spec fn starts_with_drive(path: Seq<char>) -> bool {
    path.len() >= 2 && path[1] == ':' && ('a' <= path[0] <= 'z' || 'A' <= path[0] <= 'Z')
}

/// How much of a path says which volume it is on: a drive, or the server and the share
/// of a network path. Only paths with backslashes have such a prefix. A verbatim path
/// is read as a network path on a server named `?`.
pub open spec fn volume_len(path: Seq<char>, separator: char) -> int {
    if separator != '\\' {
        0
    } else if starts_with_drive(path) {
        2
    } else if path.len() >= 2 && parts_at(path[0], separator) && parts_at(path[1], separator) {
        let server = part_end(path, 2, separator);
        let share = part_end(path, server + 1, separator);
        if server > 2 && share > server + 1 {
            share
        } else {
            0
        }
    } else {
        0
    }
}

/// A path below a folder. A path that names its volume stands for itself, and one that
/// starts at the root keeps only the volume of the folder. Nothing separates a bare
/// drive from what is below it. Parts such as `..` are kept as they are, below a
/// verbatim folder too.
pub open spec fn joined(dir: Seq<char>, part: Seq<char>, separator: char) -> Seq<char> {
    let volume = volume_len(dir, separator);
    if volume_len(part, separator) > 0 {
        part
    } else if part.len() > 0 && parts_at(part[0], separator) {
        dir.take(volume) + part
    } else if dir.len() == 0 || parts_at(dir.last(), separator) || dir.len() == 2 && volume == 2 {
        dir + part
    } else {
        dir.push(separator) + part
    }
}

/// Where a profile records to by default: a folder of its own among the captures.
pub open spec fn store_folder(
    data_local_dir: Seq<char>,
    name: Seq<char>,
    separator: char,
) -> Seq<char> {
    joined(joined(data_local_dir, "captures"@, separator), name, separator)
}

fn separates_parts(c: char, separator: char) -> (r: bool)
    ensures
        r == parts_at(c, separator),
{
    c == separator || separator == '\\' && c == '/'
}

fn find_part_end(path: &str, from: usize, separator: char) -> (end: usize)
    ensures
        end == part_end(path@, from as int, separator),
        end <= path@.len(),
{
    let n: usize = path.unicode_len();
    let mut i: usize = from;
    while i < n && !separates_parts(path.get_char(i), separator)
        invariant
            n == path@.len(),
            part_end(path@, from as int, separator) == part_end(path@, i as int, separator),
        decreases n - i,
    {
        i += 1;
    }
    if i < n {
        i
    } else {
        n
    }
}

proof fn lemma_volume_fits(path: Seq<char>, separator: char)
    ensures
        0 <= volume_len(path, separator) <= path.len(),
{
    let server = part_end(path, 2, separator);
    lemma_part_end_fits(path, 2, separator);
    lemma_part_end_fits(path, server + 1, separator);
}

proof fn lemma_part_end_fits(path: Seq<char>, from: int, separator: char)
    ensures
        part_end(path, from, separator) <= path.len(),
        from <= path.len() ==> from <= part_end(path, from, separator),
    decreases path.len() - from,
{
    if from < path.len() && !parts_at(path[from], separator) {
        lemma_part_end_fits(path, from + 1, separator);
    }
}

/// How much of a path says which volume it is on.
fn volume(path: &str, separator: char) -> (len: usize)
    ensures
        len == volume_len(path@, separator),
        len <= path@.len(),
{
    proof {
        lemma_volume_fits(path@, separator);
    }
    let n: usize = path.unicode_len();
    if separator != '\\' || n < 2 {
        return 0;
    }
    let first = path.get_char(0);
    let second = path.get_char(1);
    if second == ':' && ('a' <= first && first <= 'z' || 'A' <= first && first <= 'Z') {
        return 2;
    }
    if !separates_parts(first, separator) || !separates_parts(second, separator) {
        return 0;
    }
    let server = find_part_end(path, 2, separator);
    if server == 2 || server == n {
        return 0;
    }
    let share = find_part_end(path, server + 1, separator);
    if share > server + 1 {
        share
    } else {
        0
    }
}

fn join(dir: &str, part: &str, separator: char) -> (s: String)
    ensures
        s@ == joined(dir@, part@, separator),
{
    if volume(part, separator) > 0 {
        return part.to_owned();
    }
    let n: usize = dir.unicode_len();
    let kept = volume(dir, separator);
    if part.unicode_len() > 0 && separates_parts(part.get_char(0), separator) {
        assert(dir@.subrange(0, kept as int) =~= dir@.take(kept as int));
        return cat(dir.substring_char(0, kept), part);
    }
    let mut s = dir.to_owned();
    if n > 0 && !separates_parts(dir.get_char(n - 1), separator) && !(n == 2 && kept == 2) {
        s.push(separator);
    }
    s.append(part);
    s
}

/// Where a profile records to by default, given the folder for local data and what
/// separates the parts of a path on this machine.
pub fn default_store_folder(data_local_dir: &str, name: &str, separator: char) -> (s: String)
    ensures
        s@ == store_folder(data_local_dir@, name@, separator),
{
    let captures = join(data_local_dir, "captures", separator);
    join(captures.as_str(), name, separator)
}

/// A part that neither names a volume nor starts at the root is put below the folder.
proof fn lemma_joined_below(dir: Seq<char>, part: Seq<char>, separator: char)
    requires
        volume_len(part, separator) == 0,
        part.len() > 0 ==> !parts_at(part[0], separator),
    ensures
        dir.is_prefix_of(joined(dir, part, separator)),
{
    assert(joined(dir, part, separator).take(dir.len() as int) =~= dir);
}

/// A profile whose name neither names a volume nor starts at the root records below
/// the folder for local data.
pub proof fn law_captures_stay_below_the_data_folder(
    data_local_dir: Seq<char>,
    name: Seq<char>,
    separator: char,
)
    requires
        separator == '/' || separator == '\\',
        volume_len(name, separator) == 0,
        name.len() > 0 ==> !parts_at(name[0], separator),
    ensures
        data_local_dir.is_prefix_of(store_folder(data_local_dir, name, separator)),
{
    reveal_strlit("captures");
    let captures = joined(data_local_dir, "captures"@, separator);
    let folder = store_folder(data_local_dir, name, separator);
    lemma_joined_below(data_local_dir, "captures"@, separator);
    lemma_joined_below(captures, name, separator);
    assert(folder.take(data_local_dir.len() as int) =~= data_local_dir);
}

/// What a fresh profile holds.
pub open spec fn seeded(name: Seq<char>, output_dir: Seq<char>) -> ProfileModel {
    ProfileModel {
        name,
        endpoint: "tcp/localhost:7447"@,
        mode: "client"@,
        namespace: None,
        key_expr: "**"@,
        output_dir,
        rotate_size_bytes: 67_108_864,
        rotate_interval_secs: 3600,
        max_total_size_bytes: 1_073_741_824,
        max_age_secs: 604_800,
    }
}

impl Profile {
    /// How long a segment is written before the next one starts, in seconds.
    pub fn rotate_interval(&self) -> (secs: u64)
        ensures
            secs == self.rotate_interval_secs,
    {
        self.rotate_interval_secs
    }

    /// How long segments are kept, in seconds.
    pub fn max_age(&self) -> (secs: u64)
        ensures
            secs == self.max_age_secs,
    {
        self.max_age_secs
    }

    /// A fresh profile that records everything into its own folder below the one for
    /// local data: segments of 64 MiB or an hour, kept up to 1 GiB or a week.
    pub fn seed(name: &str, data_local_dir: &str, separator: char) -> (p: Profile)
        ensures
            p@ == seeded(name@, store_folder(data_local_dir@, name@, separator)),
    {
        Profile {
            name: name.to_owned(),
            endpoint: "tcp/localhost:7447".to_owned(),
            mode: "client".to_owned(),
            namespace: None,
            key_expr: "**".to_owned(),
            output_dir: default_store_folder(data_local_dir, name, separator),
            rotate_size_bytes: 67_108_864,
            rotate_interval_secs: 3600,
            max_total_size_bytes: 1_073_741_824,
            max_age_secs: 604_800,
        }
    }

    /// A copy of the profile.
    pub fn duplicate(&self) -> (p: Profile)
        ensures
            p@ == self@,
    {
        let namespace = match &self.namespace {
            Some(n) => Some(n.clone()),
            None => None,
        };
        Profile {
            name: self.name.clone(),
            endpoint: self.endpoint.clone(),
            mode: self.mode.clone(),
            namespace,
            key_expr: self.key_expr.clone(),
            output_dir: self.output_dir.clone(),
            rotate_size_bytes: self.rotate_size_bytes,
            rotate_interval_secs: self.rotate_interval_secs,
            max_total_size_bytes: self.max_total_size_bytes,
            max_age_secs: self.max_age_secs,
        }
    }
}

/// The position of the first profile with this name.
pub open spec fn profile_index(profiles: Seq<ProfileModel>, name: Seq<char>) -> Option<int>
    decreases profiles.len(),
{
    if profiles.len() == 0 {
        None
    } else {
        match profile_index(profiles.drop_last(), name) {
            Some(i) => Some(i),
            None => if profiles.last().name == name {
                Some(profiles.len() - 1)
            } else {
                None
            },
        }
    }
}

/// A position as an integer.
pub open spec fn position_view(i: Option<usize>) -> Option<int> {
    match i {
        Some(i) => Some(i as int),
        None => None,
    }
}

/// The position of the first profile with this name.
pub fn find_profile(profiles: &Vec<Profile>, name: &str) -> (r: Option<usize>)
    ensures
        position_view(r) == profile_index(profile_models(profiles@), name@),
        match r {
            Some(i) => i < profiles@.len() && profiles@[i as int].name@ == name@,
            None => true,
        },
{
    let ghost all = profile_models(profiles@);
    let mut found: Option<usize> = None;
    let mut i: usize = 0;
    while i < profiles.len()
        invariant
            i <= profiles.len(),
            all == profile_models(profiles@),
            position_view(found) == profile_index(all.take(i as int), name@),
            match found {
                Some(k) => k < i && profiles@[k as int].name@ == name@,
                None => true,
            },
        decreases profiles.len() - i,
    {
        assert(all.take(i as int + 1).drop_last() =~= all.take(i as int));
        assert(all.take(i as int + 1).last() == profiles@[i as int]@);
        if found.is_none() && same(profiles[i].name.as_str(), name) {
            found = Some(i);
        }
        i += 1;
    }
    assert(all.take(i as int) =~= all);
    found
}

impl AppConfig {
    /// First-run default: one seeded profile, nothing auto-started.
    pub fn first_run(data_local_dir: &str, separator: char) -> (c: AppConfig)
        ensures
            c@ == (ConfigModel {
                schema_version: SCHEMA_VERSION,
                selected_profile: "default"@,
                resume_capture_on_launch: false,
                last_capture_running: false,
                resume_after_update: false,
                profiles: seq![
                    seeded("default"@, store_folder(data_local_dir@, "default"@, separator)),
                ],
            }),
    {
        let mut profiles: Vec<Profile> = Vec::new();
        profiles.push(Profile::seed("default", data_local_dir, separator));
        let c = AppConfig {
            schema_version: SCHEMA_VERSION,
            app: AppSettings {
                selected_profile: "default".to_owned(),
                resume_capture_on_launch: false,
                last_capture_running: false,
                resume_after_update: false,
            },
            profiles,
        };
        assert(c@.profiles =~= seq![
            seeded("default"@, store_folder(data_local_dir@, "default"@, separator)),
        ]);
        c
    }

    /// The profile that is selected, where there is one of that name.
    pub fn selected_profile(&self) -> (r: Option<&Profile>)
        ensures
            match r {
                Some(p) => match profile_index(self@.profiles, self@.selected_profile) {
                    Some(i) => p@ == self@.profiles[i],
                    None => false,
                },
                None => profile_index(self@.profiles, self@.selected_profile) is None,
            },
    {
        match find_profile(&self.profiles, self.app.selected_profile.as_str()) {
            Some(i) => Some(&self.profiles[i]),
            None => None,
        }
    }

    /// Whether the recorder starts by itself when the app does.
    pub fn resumes_on_launch(&self) -> (r: bool)
        ensures
            r == resumes(self@),
    {
        self.app.last_capture_running && (self.app.resume_capture_on_launch
            || self.app.resume_after_update)
    }
}

/// Whether the recorder starts by itself when the app does: a capture was running when
/// the app ended, and it ended for an update, or resuming is wanted in any case.
pub open spec fn resumes(c: ConfigModel) -> bool {
    c.last_capture_running && (c.resume_capture_on_launch || c.resume_after_update)
}

/// The schema version a settings file without one is read as.
pub fn default_schema_version() -> (v: u32)
    ensures
        v == SCHEMA_VERSION,
{
    SCHEMA_VERSION
}

} // verus!
