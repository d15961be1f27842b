//! Taking over a newer release.

use crate::json;
use crate::json::{parse_json, Json, JsonView};
use crate::number;
use crate::number::parse_digits;
use crate::paths;
use crate::paths::name_of;
use crate::pieces;
use crate::pieces::split_by;
use crate::text;
use crate::text::{finishes_with, holds, same, trim_front_by, CharSet};
use std::io::Read;
use vstd::prelude::*;

verus! {

// ── Versions ─────────────────────────────────────────────────────────────────

/// The number at a place of a version; zero where there is none.
pub open spec fn part(v: Seq<Seq<char>>, i: int) -> int {
    if 0 <= i < v.len() {
        match number::unsigned(v[i]) {
            Some(n) => n as int,
            None => 0,
        }
    } else {
        0
    }
}

/// Whether the first place from `i` on where two versions differ has the
/// greater number in the first.
pub open spec fn greater_from(a: Seq<Seq<char>>, b: Seq<Seq<char>>, i: int) -> bool
    decreases a.len() + b.len() - i,
{
    if i >= a.len() && i >= b.len() {
        false
    } else {
        part(a, i) > part(b, i) || (part(a, i) == part(b, i) && greater_from(a, b, i + 1))
    }
}

pub open spec fn parts(version: Seq<char>) -> Seq<Seq<char>> {
    pieces::split_set(version, CharSet::OneOf("."))
}

/// Whether a version is newer than another: numbers between dots, the first
/// ones counting most.
pub open spec fn newer(latest: Seq<char>, current: Seq<char>) -> bool {
    greater_from(parts(latest), parts(current), 0)
}

fn part_of(v: &Vec<String>, i: usize) -> (n: u64)
    ensures
        n == part(text::views(v@), i as int),
{
    if i < v.len() {
        match parse_digits(v[i].as_str()) {
            Some(n) => n,
            None => 0,
        }
    } else {
        0
    }
}

/// Whether a version is newer than another.
pub fn version_newer(latest: &str, current: &str) -> (r: bool)
    ensures
        r == newer(latest@, current@),
{
    let a = split_by(latest, CharSet::OneOf("."));
    let b = split_by(current, CharSet::OneOf("."));
    let ghost av = text::views(a@);
    let ghost bv = text::views(b@);
    let mut i: usize = 0;
    while i < a.len() || i < b.len()
        invariant
            av == text::views(a@),
            bv == text::views(b@),
            av == parts(latest@),
            bv == parts(current@),
            greater_from(av, bv, 0) == greater_from(av, bv, i as int),
        decreases a.len() + b.len() - i,
    {
        let x: u64 = part_of(&a, i);
        let y: u64 = part_of(&b, i);
        if x != y {
            return x > y;
        }
        i += 1;
    }
    false
}

proof fn greater_one_way(a: Seq<Seq<char>>, b: Seq<Seq<char>>, i: int)
    ensures
        !(greater_from(a, b, i) && greater_from(b, a, i)),
    decreases a.len() + b.len() - i,
{
    if !(i >= a.len() && i >= b.len()) {
        greater_one_way(a, b, i + 1);
    }
}

/// Of two versions at most one is newer than the other; none is newer than
/// itself.
pub proof fn newer_one_way(a: Seq<char>, b: Seq<char>)
    ensures
        !(newer(a, b) && newer(b, a)),
        !newer(a, a),
{
    greater_one_way(parts(a), parts(b), 0);
    greater_one_way(parts(a), parts(a), 0);
}

// ── Releases ─────────────────────────────────────────────────────────────────

/// The target triple of a platform.
pub open spec fn target_of(arch: Seq<char>, os: Seq<char>) -> Option<Seq<char>> {
    if arch == "x86_64"@ && os == "linux"@ {
        Some("x86_64-unknown-linux-musl"@)
    } else if arch == "aarch64"@ && os == "linux"@ {
        Some("aarch64-unknown-linux-musl"@)
    } else if arch == "x86_64"@ && os == "macos"@ {
        Some("x86_64-apple-darwin"@)
    } else if arch == "aarch64"@ && os == "macos"@ {
        Some("aarch64-apple-darwin"@)
    } else if arch == "x86_64"@ && os == "windows"@ {
        Some("x86_64-pc-windows-msvc"@)
    } else {
        None
    }
}

/// The target triple of a platform.
pub fn detect_target(arch: &str, os: &str) -> (r: Option<&'static str>)
    ensures
        match r {
            Some(t) => target_of(arch@, os@) == Some(t@),
            None => target_of(arch@, os@) is None,
        },
{
    if same(arch, "x86_64") && same(os, "linux") {
        Some("x86_64-unknown-linux-musl")
    } else if same(arch, "aarch64") && same(os, "linux") {
        Some("aarch64-unknown-linux-musl")
    } else if same(arch, "x86_64") && same(os, "macos") {
        Some("x86_64-apple-darwin")
    } else if same(arch, "aarch64") && same(os, "macos") {
        Some("aarch64-apple-darwin")
    } else if same(arch, "x86_64") && same(os, "windows") {
        Some("x86_64-pc-windows-msvc")
    } else {
        None
    }
}

/// Where an asset is found, if it is for the target and ends so.
pub open spec fn asset_at(a: JsonView, target: Seq<char>, ext: Seq<char>) -> Option<Seq<char>> {
    match a.at("name"@).text() {
        Some(n) => if text::contains(n, target) && text::ends(n, ext) {
            a.at("browser_download_url"@).text()
        } else {
            None
        },
        None => None,
    }
}

pub open spec fn first_asset(
    assets: Seq<JsonView>,
    target: Seq<char>,
    ext: Seq<char>,
) -> Option<Seq<char>>
    decreases assets.len(),
{
    if assets.len() == 0 {
        None
    } else {
        match asset_at(assets[0], target, ext) {
            Some(url) => Some(url),
            None => first_asset(assets.skip(1), target, ext),
        }
    }
}

/// Where the archive of a target is found: a zip for Windows, else a
/// `.tar.xz` before a `.tar.gz`.
pub open spec fn asset_for(assets: Seq<JsonView>, target: Seq<char>) -> Option<Seq<char>> {
    if text::contains(target, "windows"@) {
        first_asset(assets, target, ".zip"@)
    } else {
        match first_asset(assets, target, ".tar.xz"@) {
            Some(url) => Some(url),
            None => first_asset(assets, target, ".tar.gz"@),
        }
    }
}

fn find_asset(assets: &Vec<Json>, target: &str, ext: &str) -> (r: Option<String>)
    ensures
        text::opt_text(r) == first_asset(json::json_views(assets@), target@, ext@),
{
    let ghost av = json::json_views(assets@);
    let mut i: usize = 0;
    assert(av.skip(0) =~= av);
    while i < assets.len()
        invariant
            i <= assets.len(),
            av == json::json_views(assets@),
            first_asset(av, target@, ext@) == first_asset(av.skip(i as int), target@, ext@),
        decreases assets.len() - i,
    {
        assert(av.skip(i as int)[0] == assets@[i as int]@);
        assert(av.skip(i as int).skip(1) =~= av.skip(i + 1));
        if let Some(name) = assets[i].text_of("name") {
            if holds(name.as_str(), target) && finishes_with(name.as_str(), ext) {
                if let Some(url) = assets[i].text_of("browser_download_url") {
                    return Some(url);
                }
            }
        }
        i += 1;
    }
    None
}

/// Where the archive of a target is found.
pub fn asset_url(assets: &Vec<Json>, target: &str) -> (r: Option<String>)
    ensures
        text::opt_text(r) == asset_for(json::json_views(assets@), target@),
{
    if holds(target, "windows") {
        find_asset(assets, target, ".zip")
    } else {
        match find_asset(assets, target, ".tar.xz") {
            Some(url) => Some(url),
            None => find_asset(assets, target, ".tar.gz"),
        }
    }
}

/// How an archive is packed.
#[derive(Debug, PartialEq, Eq, Clone, Copy, Structural)]
pub enum Archive {
    Zip,
    TarXz,
    TarGz,
}

pub open spec fn archive_of(target: Seq<char>, url: Seq<char>) -> Archive {
    if text::contains(target, "windows"@) {
        Archive::Zip
    } else if text::ends(url, ".tar.xz"@) {
        Archive::TarXz
    } else {
        Archive::TarGz
    }
}

pub open spec fn binary_of(target: Seq<char>) -> Seq<char> {
    if text::contains(target, "windows"@) {
        "parecode.exe"@
    } else {
        "parecode"@
    }
}

/// What is to be done about the latest release.
#[derive(Debug)]
pub enum UpdatePlan {
    /// The release does not say what is needed.
    Failed { error: String },
    /// There is nothing newer.
    UpToDate,
    /// It is newer, and there is nothing for this platform.
    NoPlatform { latest: String },
    NoAsset { latest: String, target: String },
    /// It is newer: this is where it is, and what to take out of it.
    Download {
        latest: String,
        target: String,
        url: String,
        archive: Archive,
        binary: String,
    },
}

/// What an `UpdatePlan` says.
pub enum UpdateView {
    Failed { error: Seq<char> },
    UpToDate,
    NoPlatform { latest: Seq<char> },
    NoAsset { latest: Seq<char>, target: Seq<char> },
    Download {
        latest: Seq<char>,
        target: Seq<char>,
        url: Seq<char>,
        archive: Archive,
        binary: Seq<char>,
    },
}

impl View for UpdatePlan {
    type V = UpdateView;

    open spec fn view(&self) -> UpdateView {
        match *self {
            UpdatePlan::Failed { error } => UpdateView::Failed { error: error@ },
            UpdatePlan::UpToDate => UpdateView::UpToDate,
            UpdatePlan::NoPlatform { latest } => UpdateView::NoPlatform { latest: latest@ },
            UpdatePlan::NoAsset { latest, target } => UpdateView::NoAsset {
                latest: latest@,
                target: target@,
            },
            UpdatePlan::Download { latest, target, url, archive, binary } => UpdateView::Download {
                latest: latest@,
                target: target@,
                url: url@,
                archive,
                binary: binary@,
            },
        }
    }
}

/// The version that a tag names.
pub open spec fn version_of_tag(tag: Seq<char>) -> Seq<char> {
    text::trim_start_set(tag, CharSet::OneOf("v"))
}

/// What is to be done about a release.
pub open spec fn update_of(
    release: JsonView,
    current: Seq<char>,
    arch: Seq<char>,
    os: Seq<char>,
) -> UpdateView {
    match release.at("tag_name"@).text() {
        None => UpdateView::Failed { error: "No tag_name in release response"@ },
        Some(tag) => {
            let latest = version_of_tag(tag);
            if !newer(latest, current) {
                UpdateView::UpToDate
            } else {
                match target_of(arch, os) {
                    None => UpdateView::NoPlatform { latest },
                    Some(target) => match release.at("assets"@).list() {
                        None => UpdateView::Failed { error: "No assets in release"@ },
                        Some(assets) => match asset_for(assets, target) {
                            None => UpdateView::NoAsset { latest, target },
                            Some(url) => UpdateView::Download {
                                latest,
                                target,
                                url,
                                archive: archive_of(target, url),
                                binary: binary_of(target),
                            },
                        },
                    },
                }
            }
        },
    }
}

/// What is to be done about a release, on a platform where a version runs.
pub fn plan_update(release: &Json, current: &str, arch: &str, os: &str) -> (r: UpdatePlan)
    ensures
        r@ == update_of(release@, current@, arch@, os@),
{
    let tag = match release.text_of("tag_name") {
        Some(t) => t,
        None => {
            return UpdatePlan::Failed { error: "No tag_name in release response".to_owned() };
        },
    };
    let latest = trim_front_by(tag.as_str(), CharSet::OneOf("v"));
    if !version_newer(latest.as_str(), current) {
        return UpdatePlan::UpToDate;
    }
    let target = match detect_target(arch, os) {
        Some(t) => t.to_owned(),
        None => {
            return UpdatePlan::NoPlatform { latest };
        },
    };
    let assets = match release.get("assets") {
        Some(Json::List(v)) => {
            assert(Json::List(*v)@->List_0 =~= json::json_views(v@));
            v
        },
        _ => {
            return UpdatePlan::Failed { error: "No assets in release".to_owned() };
        },
    };
    let url = match asset_url(assets, target.as_str()) {
        Some(u) => u,
        None => {
            return UpdatePlan::NoAsset { latest, target };
        },
    };
    let windows = holds(target.as_str(), "windows");
    let archive = if windows {
        Archive::Zip
    } else if finishes_with(url.as_str(), ".tar.xz") {
        Archive::TarXz
    } else {
        Archive::TarGz
    };
    let binary = if windows {
        "parecode.exe".to_owned()
    } else {
        "parecode".to_owned()
    };
    UpdatePlan::Download { latest, target, url, archive, binary }
}

/// What is to be done about a release, told as JSON.
pub fn plan_update_text(release: &str, current: &str, arch: &str, os: &str) -> (r: UpdatePlan)
    ensures
        r@ == (match json::json_read(release@) {
            Ok(j) => update_of(j, current@, arch@, os@),
            Err(e) => UpdateView::Failed { error: e },
        }),
{
    match parse_json(release) {
        Ok(j) => plan_update(&j, current, arch, os),
        Err(e) => UpdatePlan::Failed { error: e },
    }
}

// ── Archives ─────────────────────────────────────────────────────────────────

/// The paths of the members of a tar archive packed by xz, in their order, up
/// to the first that cannot be read, and why that one cannot.
pub uninterp spec fn tar_xz_paths(data: Seq<u8>) -> (Seq<Seq<char>>, Option<Seq<char>>);

/// What a member of a tar archive packed by xz holds, or why it cannot be
/// read.
pub uninterp spec fn tar_xz_content(data: Seq<u8>, i: int) -> Result<Seq<u8>, Seq<char>>;

/// The paths of the members of a tar archive packed by gzip, in their order,
/// up to the first that cannot be read, and why that one cannot.
pub uninterp spec fn tar_gz_paths(data: Seq<u8>) -> (Seq<Seq<char>>, Option<Seq<char>>);

/// What a member of a tar archive packed by gzip holds, or why it cannot be
/// read.
pub uninterp spec fn tar_gz_content(data: Seq<u8>, i: int) -> Result<Seq<u8>, Seq<char>>;

/// The names of the members of a zip archive, in their order, up to the
/// first that cannot be opened, and why that one cannot.
pub uninterp spec fn zip_paths(data: Seq<u8>) -> (Seq<Seq<char>>, Option<Seq<char>>);

/// What a member of a zip archive holds, or why it cannot be read.
pub uninterp spec fn zip_content(data: Seq<u8>, i: int) -> Result<Seq<u8>, Seq<char>>;

/// The paths of the members of an archive, and what ended them early.
pub type Listing = (Vec<String>, Option<String>);

pub open spec fn listing_view(l: Listing) -> (Seq<Seq<char>>, Option<Seq<char>>) {
    (text::views(l.0@), text::opt_text(l.1))
}

pub open spec fn content_view(r: Result<Vec<u8>, String>) -> Result<Seq<u8>, Seq<char>> {
    match r {
        Ok(v) => Ok(v@),
        Err(e) => Err(e@),
    }
}

/// `tar::Archive::entries` over `xz2::read::XzDecoder`: `Entry::path_bytes`
/// of each entry as text, up to the first error. The result is a function of
/// the bytes alone, and has a name.
#[verifier::external_body]
fn list_tar_xz(data: &[u8]) -> (r: Listing)
    ensures
        listing_view(r) == tar_xz_paths(data@),
{
    let mut archive = tar::Archive::new(xz2::read::XzDecoder::new(data));
    let mut paths: Vec<String> = Vec::new();
    let mut entries = match archive.entries() {
        Ok(entries) => entries,
        Err(e) => return (paths, Some(e.to_string())),
    };
    while let Some(entry) = entries.next() {
        match entry {
            Ok(e) => paths.push(String::from_utf8_lossy(&e.path_bytes()).into_owned()),
            Err(e) => return (paths, Some(e.to_string())),
        }
    }
    (paths, None)
}

/// `Entry::read_to_end` of the entry at a place of `tar::Archive::entries`
/// over `xz2::read::XzDecoder`. The result is a function of the bytes and
/// the place alone, and has a name.
#[verifier::external_body]
fn read_tar_xz(data: &[u8], i: usize) -> (r: Result<Vec<u8>, String>)
    requires
        i < tar_xz_paths(data@).0.len(),
    ensures
        content_view(r) == tar_xz_content(data@, i as int),
{
    let mut archive = tar::Archive::new(xz2::read::XzDecoder::new(data));
    let mut entries = archive.entries().map_err(|e| e.to_string())?;
    let mut content: Vec<u8> = Vec::new();
    match entries.nth(i) {
        Some(Ok(mut e)) => e.read_to_end(&mut content).map_err(|e| e.to_string())?,
        Some(Err(e)) => return Err(e.to_string()),
        None => return Err(String::new()),
    };
    Ok(content)
}

/// `tar::Archive::entries` over `flate2::read::GzDecoder`:
/// `Entry::path_bytes` of each entry as text, up to the first error. The
/// result is a function of the bytes alone, and has a name.
#[verifier::external_body]
fn list_tar_gz(data: &[u8]) -> (r: Listing)
    ensures
        listing_view(r) == tar_gz_paths(data@),
{
    let mut archive = tar::Archive::new(flate2::read::GzDecoder::new(data));
    let mut paths: Vec<String> = Vec::new();
    let mut entries = match archive.entries() {
        Ok(entries) => entries,
        Err(e) => return (paths, Some(e.to_string())),
    };
    while let Some(entry) = entries.next() {
        match entry {
            Ok(e) => paths.push(String::from_utf8_lossy(&e.path_bytes()).into_owned()),
            Err(e) => return (paths, Some(e.to_string())),
        }
    }
    (paths, None)
}

/// `Entry::read_to_end` of the entry at a place of `tar::Archive::entries`
/// over `flate2::read::GzDecoder`. The result is a function of the bytes and
/// the place alone, and has a name.
#[verifier::external_body]
fn read_tar_gz(data: &[u8], i: usize) -> (r: Result<Vec<u8>, String>)
    requires
        i < tar_gz_paths(data@).0.len(),
    ensures
        content_view(r) == tar_gz_content(data@, i as int),
{
    let mut archive = tar::Archive::new(flate2::read::GzDecoder::new(data));
    let mut entries = archive.entries().map_err(|e| e.to_string())?;
    let mut content: Vec<u8> = Vec::new();
    match entries.nth(i) {
        Some(Ok(mut e)) => e.read_to_end(&mut content).map_err(|e| e.to_string())?,
        Some(Err(e)) => return Err(e.to_string()),
        None => return Err(String::new()),
    };
    Ok(content)
}

/// `zip::ZipArchive::by_index` at each place in turn: `ZipFile::name`, up to
/// the first error. The result is a function of the bytes alone, and has a
/// name.
#[verifier::external_body]
fn list_zip(data: &[u8]) -> (r: Listing)
    ensures
        listing_view(r) == zip_paths(data@),
{
    let mut paths: Vec<String> = Vec::new();
    let mut zip = match zip::ZipArchive::new(std::io::Cursor::new(data)) {
        Ok(zip) => zip,
        Err(e) => return (paths, Some(e.to_string())),
    };
    while paths.len() < zip.len() {
        match zip.by_index(paths.len()) {
            Ok(f) => paths.push(f.name().to_string()),
            Err(e) => return (paths, Some(e.to_string())),
        }
    }
    (paths, None)
}

/// `ZipFile::read_to_end` of `zip::ZipArchive::by_index` at a place. The
/// result is a function of the bytes and the place alone, and has a name.
#[verifier::external_body]
fn read_zip(data: &[u8], i: usize) -> (r: Result<Vec<u8>, String>)
    requires
        i < zip_paths(data@).0.len(),
    ensures
        content_view(r) == zip_content(data@, i as int),
{
    let mut zip = zip::ZipArchive::new(std::io::Cursor::new(data)).map_err(|e| e.to_string())?;
    let mut file = zip.by_index(i).map_err(|e| e.to_string())?;
    let mut content: Vec<u8> = Vec::new();
    file.read_to_end(&mut content).map_err(|e| e.to_string())?;
    Ok(content)
}

/// The first path that leads to the name.
pub open spec fn leading_to(ps: Seq<Seq<char>>, name: Seq<char>, from: int) -> Option<int>
    decreases ps.len() - from,
{
    if from < 0 || from >= ps.len() {
        None
    } else if paths::name(ps[from]) == Some(name) {
        Some(from)
    } else {
        leading_to(ps, name, from + 1)
    }
}

proof fn leading_in_range(ps: Seq<Seq<char>>, name: Seq<char>, from: int)
    ensures
        match leading_to(ps, name, from) {
            Some(i) => from <= i < ps.len() && 0 <= i && paths::name(ps[i]) == Some(name),
            None => true,
        },
    decreases ps.len() - from,
{
    if 0 <= from < ps.len() {
        leading_in_range(ps, name, from + 1);
    }
}

/// Which member of an archive has the name: the first of them; else what
/// ended the members early, or that there is none.
pub open spec fn member_of(
    listing: (Seq<Seq<char>>, Option<Seq<char>>),
    name: Seq<char>,
    place: Seq<char>,
) -> Result<int, Seq<char>> {
    match leading_to(listing.0, name, 0) {
        Some(i) => Ok(i),
        None => match listing.1 {
            Some(e) => Err(e),
            None => Err("Binary '"@ + name + "' not found in "@ + place),
        },
    }
}

/// Which member of an archive has the name.
pub fn pick_member(listing: Listing, target_name: &str, place: &str) -> (r: Result<usize, String>)
    ensures
        match r {
            Ok(i) => member_of(listing_view(listing), target_name@, place@) == Ok::<int, Seq<char>>(
                i as int,
            ) && i < listing.0@.len(),
            Err(e) => member_of(listing_view(listing), target_name@, place@) == Err::<
                int,
                Seq<char>,
            >(e@),
        },
{
    let ghost ps = text::views(listing.0@);
    let mut i: usize = 0;
    while i < listing.0.len()
        invariant
            i <= listing.0.len(),
            ps == text::views(listing.0@),
            leading_to(ps, target_name@, 0) == leading_to(ps, target_name@, i as int),
        decreases listing.0.len() - i,
    {
        assert(ps[i as int] == listing.0@[i as int]@);
        if let Some(n) = name_of(listing.0[i].as_str()) {
            if same(n.as_str(), target_name) {
                return Ok(i);
            }
        }
        i += 1;
    }
    match listing.1 {
        Some(e) => Err(e),
        None => {
            let mut s = "Binary '".to_owned();
            s.append(target_name);
            s.append("' not found in ");
            s.append(place);
            Err(s)
        },
    }
}

/// What the member of the name holds, given the paths of the members and
/// what each holds.
pub open spec fn extracted(
    member: Result<int, Seq<char>>,
    content: spec_fn(int) -> Result<Seq<u8>, Seq<char>>,
) -> Result<Seq<u8>, Seq<char>> {
    match member {
        Ok(i) => content(i),
        Err(e) => Err(e),
    }
}

/// The first file of a name in a `.tar.xz` archive.
pub fn extract_from_tar_xz(data: &[u8], target_name: &str) -> (r: Result<Vec<u8>, String>)
    ensures
        content_view(r) == extracted(
            member_of(tar_xz_paths(data@), target_name@, "archive"@),
            |i: int| tar_xz_content(data@, i),
        ),
{
    let listing = list_tar_xz(data);
    match pick_member(listing, target_name, "archive") {
        Ok(i) => read_tar_xz(data, i),
        Err(e) => Err(e),
    }
}

/// The first file of a name in a `.tar.gz` archive.
pub fn extract_from_tar_gz(data: &[u8], target_name: &str) -> (r: Result<Vec<u8>, String>)
    ensures
        content_view(r) == extracted(
            member_of(tar_gz_paths(data@), target_name@, "archive"@),
            |i: int| tar_gz_content(data@, i),
        ),
{
    let listing = list_tar_gz(data);
    match pick_member(listing, target_name, "archive") {
        Ok(i) => read_tar_gz(data, i),
        Err(e) => Err(e),
    }
}

/// The first file of a name in a zip archive.
pub fn extract_from_zip(data: &[u8], target_name: &str) -> (r: Result<Vec<u8>, String>)
    ensures
        content_view(r) == extracted(
            member_of(zip_paths(data@), target_name@, "zip"@),
            |i: int| zip_content(data@, i),
        ),
{
    let listing = list_zip(data);
    match pick_member(listing, target_name, "zip") {
        Ok(i) => read_zip(data, i),
        Err(e) => Err(e),
    }
}

/// What is taken out of an archive is the content of a member of that name,
/// and no member before it has the name.
pub proof fn first_of_name(listing: (Seq<Seq<char>>, Option<Seq<char>>), name: Seq<char>, place: Seq<char>)
    ensures
        match member_of(listing, name, place) {
            Ok(i) => 0 <= i < listing.0.len() && paths::name(listing.0[i]) == Some(name) && (forall|
                j: int,
            |
                0 <= j < i ==> paths::name(#[trigger] listing.0[j]) != Some(name)),
            Err(_) => forall|j: int|
                0 <= j < listing.0.len() ==> paths::name(#[trigger] listing.0[j]) != Some(name),
        },
{
    leading_in_range(listing.0, name, 0);
    leading_is_first(listing.0, name, 0);
}

proof fn leading_is_first(ps: Seq<Seq<char>>, name: Seq<char>, from: int)
    requires
        0 <= from,
    ensures
        match leading_to(ps, name, from) {
            Some(i) => forall|j: int| from <= j < i ==> paths::name(#[trigger] ps[j]) != Some(name),
            None => forall|j: int|
                from <= j < ps.len() ==> paths::name(#[trigger] ps[j]) != Some(name),
        },
    decreases ps.len() - from,
{
    if from < ps.len() && paths::name(ps[from]) != Some(name) {
        leading_is_first(ps, name, from + 1);
    }
}

proof fn three_parts(a: nat, b: nat, c: nat)
    requires
        a <= u64::MAX,
        b <= u64::MAX,
        c <= u64::MAX,
    ensures
        ({
            let p = parts(number::decimal(a) + "."@ + number::decimal(b) + "."@ + number::decimal(c));
            &&& p.len() == 3
            &&& part(p, 0) == a
            &&& part(p, 1) == b
            &&& part(p, 2) == c
        }),
{
    reveal_strlit(".");
    let x = number::decimal(a);
    let y = number::decimal(b);
    let z = number::decimal(c);
    number::decimal_reads_back(a);
    number::decimal_reads_back(b);
    number::decimal_reads_back(c);
    let rest = y + "."@ + z;
    assert(x + "."@ + y + "."@ + z =~= x + "."@ + rest);
    split_at_dot(x, rest);
    split_at_dot(y, z);
    split_at_dot(z, z);
    let p = parts(x + "."@ + rest);
    assert(p =~= seq![x, y, z]);
}

proof fn split_at_dot(a: Seq<char>, rest: Seq<char>)
    requires
        number::all_digits(a),
    ensures
        parts(a) == seq![a],
        parts(a + "."@ + rest) == seq![a] + parts(rest),
{
    reveal_strlit(".");
    let cs = CharSet::OneOf(".");
    let t = "."@;
    assert(t[0] == '.');
    assert(t.contains('.'));
    text::lead_bound(a, cs, false);
    let m = text::lead(a, cs, false) as int;
    if m < a.len() {
        assert(t.contains(a[m]));
        assert(text::ascii_digit(a[m]));
    }
    let s = a + t + rest;
    text::lead_bound(s, cs, false);
    let n = text::lead(s, cs, false) as int;
    if n < a.len() {
        assert(t.contains(s[n]));
        assert(text::ascii_digit(a[n]));
    } else if n > a.len() {
        assert(s[a.len() as int] == '.');
    }
    assert(s.take(n) =~= a);
    assert(s.skip(n + 1) =~= rest);
}

/// A version is newer if and only if it is the greater one, number by number
/// from the left.
pub proof fn versions_go_by_number(a: nat, b: nat, c: nat, x: nat, y: nat, z: nat)
    requires
        a <= u64::MAX,
        b <= u64::MAX,
        c <= u64::MAX,
        x <= u64::MAX,
        y <= u64::MAX,
        z <= u64::MAX,
    ensures
        newer(
            number::decimal(a) + "."@ + number::decimal(b) + "."@ + number::decimal(c),
            number::decimal(x) + "."@ + number::decimal(y) + "."@ + number::decimal(z),
        ) <==> a > x || (a == x && b > y) || (a == x && b == y && c > z),
{
    three_parts(a, b, c);
    three_parts(x, y, z);
    reveal_with_fuel(greater_from, 4);
}

/// The letter in front of a tag does not belong to the version.
pub proof fn tag_names_its_version(version: Seq<char>)
    requires
        version.len() > 0,
        version[0] != 'v',
    ensures
        version_of_tag("v"@ + version) == version,
        version_of_tag(version) == version,
{
    reveal_strlit("v");
    let cs = CharSet::OneOf("v");
    let t = "v"@;
    assert(t[0] == 'v');
    assert(t.contains('v'));
    assert(!t.contains(version[0]));
    let s = t + version;
    text::lead_bound(s, cs, true);
    assert(s[0] == 'v' && s[1] == version[0]);
    assert(text::lead(s, cs, true) == 1);
    assert(s.skip(1) =~= version);
    assert(text::lead(version, cs, true) == 0);
    assert(version.skip(0) =~= version);
}

/// The asset is the first whose name holds the target and ends as asked, and
/// that says where it can be had.
pub proof fn first_fitting_asset(assets: Seq<JsonView>, target: Seq<char>, ext: Seq<char>, i: int)
    requires
        0 <= i <= assets.len(),
        forall|k: int| 0 <= k < i ==> asset_at(#[trigger] assets[k], target, ext) is None,
    ensures
        i == assets.len() ==> first_asset(assets, target, ext) is None,
        i < assets.len() && asset_at(assets[i], target, ext) is Some ==> first_asset(
            assets,
            target,
            ext,
        ) == asset_at(assets[i], target, ext),
    decreases assets.len(),
{
    if i > 0 {
        let t = assets.skip(1);
        assert forall|k: int| 0 <= k < i - 1 implies asset_at(#[trigger] t[k], target, ext) is None by {
            assert(t[k] == assets[k + 1]);
        }
        first_fitting_asset(t, target, ext, i - 1);
        assert(asset_at(assets[0], target, ext) is None);
        if i < assets.len() {
            assert(t[i - 1] == assets[i]);
        }
    }
}

/// An asset fits where its name holds the target and has the ending.
pub proof fn assets_fit_by_name(
    a: JsonView,
    front: Seq<char>,
    target: Seq<char>,
    ext: Seq<char>,
    url: Seq<char>,
    name: Seq<char>,
)
    requires
        a.at("browser_download_url"@) == JsonView::Text(url),
        a.at("name"@) == JsonView::Text(name),
    ensures
        name == front + target + ext ==> asset_at(a, target, ext) == Some(url),
        !text::contains(name, target) || !text::ends(name, ext) ==> asset_at(a, target, ext) is None,
{
    let s = front + target + ext;
    let n = front.len() as int;
    assert(s.subrange(n, n + target.len()) =~= target);
    assert(text::occurs_at(s, target, n));
    assert(s.subrange(s.len() - ext.len(), s.len() as int) =~= ext);
}

/// A release that is not newer asks for nothing; one that is newer is fetched
/// where there is something for the platform, and what is missing is told.
pub proof fn newer_release_is_fetched(
    release: JsonView,
    tag: Seq<char>,
    current: Seq<char>,
    arch: Seq<char>,
    os: Seq<char>,
    assets: Seq<JsonView>,
)
    requires
        release.at("tag_name"@) == JsonView::Text(tag),
    ensures
        ({
            let r = update_of(release, current, arch, os);
            let latest = version_of_tag(tag);
            &&& !newer(latest, current) ==> r is UpToDate
            &&& newer(latest, current) ==> !(r is UpToDate)
            &&& newer(latest, current) && release.at("assets"@) == JsonView::List(assets) ==> (
            target_of(arch, os) matches Some(t) ==> (asset_for(assets, t) matches Some(url) ==> (
            r matches UpdateView::Download { latest: l, target, url: u, archive, binary } && l == latest
                && target == t && u == url)))
            &&& newer(latest, current) && target_of(arch, os) is None ==> r is NoPlatform
        }),
{
}

/// Windows gets an archive of its own kind and a binary of its own name;
/// elsewhere the smaller archive goes before the other.
pub proof fn archives_go_by_platform(assets: Seq<JsonView>, target: Seq<char>, front: Seq<char>)
    ensures
        text::contains(target, "windows"@) ==> asset_for(assets, target) == first_asset(
            assets,
            target,
            ".zip"@,
        ) && archive_of(target, front) == Archive::Zip && binary_of(target) == "parecode.exe"@,
        !text::contains(target, "windows"@) ==> {
            &&& binary_of(target) == "parecode"@
            &&& archive_of(target, front + ".tar.xz"@) == Archive::TarXz
            &&& archive_of(target, front + ".tar.gz"@) == Archive::TarGz
            &&& first_asset(assets, target, ".tar.xz"@) is Some ==> asset_for(assets, target)
                == first_asset(assets, target, ".tar.xz"@)
            &&& first_asset(assets, target, ".tar.xz"@) is None ==> asset_for(assets, target)
                == first_asset(assets, target, ".tar.gz"@)
        },
{
    reveal_strlit(".tar.xz");
    reveal_strlit(".tar.gz");
    let x = front + ".tar.xz"@;
    let n = x.len() as int;
    assert(x.subrange(n - 7, n) =~= ".tar.xz"@);
    let g = front + ".tar.gz"@;
    if text::ends(g, ".tar.xz"@) {
        assert(g.subrange(n - 7, n)[5] == g[n - 2]);
    }
}

} // verus!
