//! Scene upload and preset requests, with their field rules.
//!
//! A request that fails its rules is answered with the names of the failing
//! fields, in declaration order. Text lengths count characters.
use vstd::prelude::*;

use crate::validation::{valid_slug, validate_slug};

verus! {

/// The names of a list of failing fields.
pub open spec fn field_names(v: Seq<&'static str>) -> Seq<Seq<char>> {
    v.map_values(|s: &'static str| s@)
}

/// `names` with `name` added when the rule does not hold.
pub open spec fn note_field(names: Seq<Seq<char>>, holds: bool, name: Seq<char>) -> Seq<Seq<char>> {
    if holds {
        names
    } else {
        names.push(name)
    }
}

/// Whether a text has between `min` and `max` characters.
pub open spec fn length_within(s: Seq<char>, min: int, max: int) -> bool {
    min <= s.len() <= max
}

fn note(errors: &mut Vec<&'static str>, holds: bool, name: &'static str)
    ensures
        field_names(final(errors)@) == note_field(field_names(old(errors)@), holds, name@),
{
    if !holds {
        let ghost before = errors@;
        errors.push(name);
        assert(field_names(errors@) =~= field_names(before).push(name@));
    }
}

fn finish(errors: Vec<&'static str>) -> (res: Result<(), Vec<&'static str>>)
    ensures
        res is Ok <==> errors@.len() == 0,
        res matches Err(v) ==> v@ == errors@,
{
    if errors.len() == 0 {
        Ok(())
    } else {
        Err(errors)
    }
}

/// Partial update of a scene's name and description.
#[derive(Debug, Clone)]
pub struct UpdateSceneMetadataRequest {
    pub name: Option<String>,
    pub description: Option<String>,
}

/// Request to start uploading a new scene.
#[derive(Debug, Clone)]
pub struct InitiateNewSceneUploadRequest {
    pub name: String,
    pub slug: String,
    pub description: Option<String>,
    pub dimension: String,
    pub minecraft_version: String,
    pub file_hash: String,
    pub size_bytes: i64,
}

/// The fields of a new-scene upload request that break its rules: name of
/// 1 to 100 characters; slug of 1 to 100 slug characters; dimension of 1 to
/// 50; Minecraft version of 1 to 20; a nonempty file hash; a size of at least 1.
pub open spec fn new_scene_upload_errors(r: InitiateNewSceneUploadRequest) -> Seq<Seq<char>> {
    let e = Seq::empty();
    let e = note_field(e, length_within(r.name@, 1, 100), "name"@);
    let e = note_field(e, length_within(r.slug@, 1, 100) && valid_slug(r.slug@), "slug"@);
    let e = note_field(e, length_within(r.dimension@, 1, 50), "dimension"@);
    let e = note_field(e, length_within(r.minecraft_version@, 1, 20), "minecraft_version"@);
    let e = note_field(e, r.file_hash@.len() >= 1, "file_hash"@);
    note_field(e, r.size_bytes >= 1, "size_bytes"@)
}

impl InitiateNewSceneUploadRequest {
    /// Check the request's field rules.
    pub fn validate(&self) -> (res: Result<(), Vec<&'static str>>)
        ensures
            res is Ok <==> new_scene_upload_errors(*self).len() == 0,
            res matches Err(v) ==> field_names(v@) == new_scene_upload_errors(*self),
    {
        let mut errors: Vec<&'static str> = Vec::new();
        assert(field_names(errors@) =~= Seq::<Seq<char>>::empty());
        let n = self.name.as_str().unicode_len();
        note(&mut errors, 1 <= n && n <= 100, "name");
        let s = self.slug.as_str().unicode_len();
        let slug_ok = 1 <= s && s <= 100 && validate_slug(self.slug.as_str()).is_ok();
        note(&mut errors, slug_ok, "slug");
        let d = self.dimension.as_str().unicode_len();
        note(&mut errors, 1 <= d && d <= 50, "dimension");
        let m = self.minecraft_version.as_str().unicode_len();
        note(&mut errors, 1 <= m && m <= 20, "minecraft_version");
        let h = self.file_hash.as_str().unicode_len();
        note(&mut errors, h >= 1, "file_hash");
        note(&mut errors, self.size_bytes >= 1, "size_bytes");
        finish(errors)
    }
}

/// Request to start uploading a new version of a scene.
#[derive(Debug, Clone)]
pub struct InitiateVersionUploadRequest {
    pub file_hash: String,
    pub size_bytes: i64,
    pub minecraft_version: String,
}

/// The fields of a version upload request that break its rules: a nonempty
/// file hash, a size of at least 1 and a Minecraft version of 1 to 20 characters.
pub open spec fn version_upload_errors(r: InitiateVersionUploadRequest) -> Seq<Seq<char>> {
    let e = Seq::empty();
    let e = note_field(e, r.file_hash@.len() >= 1, "file_hash"@);
    let e = note_field(e, r.size_bytes >= 1, "size_bytes"@);
    note_field(e, length_within(r.minecraft_version@, 1, 20), "minecraft_version"@)
}

impl InitiateVersionUploadRequest {
    /// Check the request's field rules.
    pub fn validate(&self) -> (res: Result<(), Vec<&'static str>>)
        ensures
            res is Ok <==> version_upload_errors(*self).len() == 0,
            res matches Err(v) ==> field_names(v@) == version_upload_errors(*self),
    {
        let mut errors: Vec<&'static str> = Vec::new();
        assert(field_names(errors@) =~= Seq::<Seq<char>>::empty());
        let h = self.file_hash.as_str().unicode_len();
        note(&mut errors, h >= 1, "file_hash");
        note(&mut errors, self.size_bytes >= 1, "size_bytes");
        let m = self.minecraft_version.as_str().unicode_len();
        note(&mut errors, 1 <= m && m <= 20, "minecraft_version");
        finish(errors)
    }
}

/// Where to upload a scene package.
#[derive(Debug, Clone)]
pub struct UploadInitiatedResponse {
    pub upload_id: String,
    pub upload_url: String,
}

/// The records an upload confirmation created.
#[derive(Debug, Clone)]
pub struct CompleteUploadResponse {
    pub scene_id: String,
    pub scene_version_id: String,
    pub preset_id: Option<String>,
}

/// New order of a scene's presets: each preset's sort order becomes its index.
#[derive(Debug, Clone)]
pub struct ReorderPresetsRequest {
    pub preset_ids: Vec<String>,
}

/// The fields of a reorder request that break its rules: 1 to 100 preset ids.
pub open spec fn reorder_errors(r: ReorderPresetsRequest) -> Seq<Seq<char>> {
    note_field(Seq::empty(), 1 <= r.preset_ids@.len() <= 100, "preset_ids"@)
}

impl ReorderPresetsRequest {
    /// Check the request's field rules.
    pub fn validate(&self) -> (res: Result<(), Vec<&'static str>>)
        ensures
            res is Ok <==> reorder_errors(*self).len() == 0,
            res matches Err(v) ==> field_names(v@) == reorder_errors(*self),
    {
        let mut errors: Vec<&'static str> = Vec::new();
        assert(field_names(errors@) =~= Seq::<Seq<char>>::empty());
        let n = self.preset_ids.len();
        note(&mut errors, 1 <= n && n <= 100, "preset_ids");
        finish(errors)
    }
}

/// The fields of a scene's latest version that a scene listing fills in
/// when the joined row leaves them empty (positions and angles are the
/// caller's). `T` is the timestamp type.
pub struct ListedVersionFields<T> {
    pub version_id: String,
    pub time_of_day_ticks: i32,
    pub weather: String,
    pub fov: i32,
    pub render_distance: i32,
    pub created_at: T,
}

/// The error of a listed scene without a version.
pub open spec fn no_version_message(scene_id: Seq<char>) -> Seq<char> {
    "scene '"@ + scene_id + "' has no version (post-migration invariant violated)"@
}

/// The version fields of a listed scene: an error when the scene has no
/// version; otherwise the row's values, with time of day 0, no weather,
/// field of view 70, render distance 16 and the scene's own creation time
/// where the row has none.
pub fn listed_version_fields<T>(
    scene_id: &str,
    version_id: Option<String>,
    time_of_day_ticks: Option<i32>,
    weather: Option<String>,
    fov: Option<i32>,
    render_distance: Option<i32>,
    version_created_at: Option<T>,
    scene_created_at: T,
) -> (res: Result<ListedVersionFields<T>, String>)
    ensures
        version_id is None ==> (res matches Err(e) && e@ == no_version_message(scene_id@)),
        version_id matches Some(v) ==> (res matches Ok(f) && f.version_id == v
            && f.time_of_day_ticks == (match time_of_day_ticks {
            Some(t) => t,
            None => 0i32,
        }) && f.weather@ == (match weather {
            Some(w) => w@,
            None => Seq::<char>::empty(),
        }) && f.fov == (match fov {
            Some(x) => x,
            None => 70i32,
        }) && f.render_distance == (match render_distance {
            Some(x) => x,
            None => 16i32,
        }) && f.created_at == (match version_created_at {
            Some(t) => t,
            None => scene_created_at,
        })),
{
    match version_id {
        None => {
            proof {
                reveal_strlit("scene '");
                reveal_strlit("' has no version (post-migration invariant violated)");
            }
            let e = String::from_str("scene '").concat(scene_id).concat(
                "' has no version (post-migration invariant violated)",
            );
            Err(e)
        },
        Some(v) => {
            let weather = match weather {
                Some(w) => w,
                None => String::new(),
            };
            let created_at = match version_created_at {
                Some(t) => t,
                None => scene_created_at,
            };
            Ok(ListedVersionFields {
                version_id: v,
                time_of_day_ticks: match time_of_day_ticks {
                    Some(t) => t,
                    None => 0,
                },
                weather,
                fov: match fov {
                    Some(x) => x,
                    None => 70,
                },
                render_distance: match render_distance {
                    Some(x) => x,
                    None => 16,
                },
                created_at,
            })
        },
    }
}

} // verus!
