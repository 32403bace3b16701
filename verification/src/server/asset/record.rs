//! What is known of an asset, and which assets are worth indexing.
use vstd::prelude::*;

use crate::query::pattern::{normalize_path, slashed_path};
use crate::text;
use crate::textset::{sorted_set, sorted_strings};

verus! {

/// What was read from an asset file.
#[derive(Debug)]
pub struct AssetRecord {
    pub asset_path: String,
    pub source_path: String,
    pub mtime: i64,
    pub asset_class: Option<String>,
    pub parent_class: Option<String>,
    pub imports: Vec<String>,
    pub functions: Vec<String>,
}

pub struct RecordView {
    pub asset_path: Seq<char>,
    pub source_path: Seq<char>,
    pub mtime: i64,
    pub asset_class: Option<Seq<char>>,
    pub parent_class: Option<Seq<char>>,
    pub imports: Seq<Seq<char>>,
    pub functions: Seq<Seq<char>>,
}

impl View for AssetRecord {
    type V = RecordView;

    open spec fn view(&self) -> RecordView {
        RecordView {
            asset_path: self.asset_path@,
            source_path: self.source_path@,
            mtime: self.mtime,
            asset_class: text::opt_text(self.asset_class),
            parent_class: text::opt_text(self.parent_class),
            imports: text::texts(self.imports@),
            functions: text::texts(self.functions@),
        }
    }
}

pub open spec fn opt_record(r: Option<AssetRecord>) -> Option<RecordView> {
    match r {
        Some(r) => Some(r@),
        None => None,
    }
}

pub open spec fn logical_class(s: Seq<char>) -> bool {
    text::same_caseless(s, "Blueprint"@) || text::same_caseless(s, "WidgetBlueprint"@)
        || text::same_caseless(s, "AnimBlueprint"@) || text::same_caseless(s, "DataAsset"@)
        || text::same_caseless(s, "PrimaryDataAsset"@) || text::same_caseless(s, "DataTable"@)
        || text::same_caseless(s, "CurveTable"@) || text::same_caseless(s, "CurveFloat"@)
        || text::same_caseless(s, "CurveVector"@) || text::same_caseless(s, "CurveLinearColor"@)
        || text::same_caseless(s, "UserDefinedStruct"@) || text::same_caseless(
        s,
        "UserDefinedEnum"@,
    ) || text::same_caseless(s, "BehaviorTree"@) || text::same_caseless(s, "BlackboardData"@)
}

/// The class is one of assets that hold logic or data.
pub fn is_explicit_logical_asset_class(class_name: &str) -> (r: bool)
    ensures
        r == logical_class(class_name@),
{
    let s = class_name;
    text::eq_caseless(s, "Blueprint") || text::eq_caseless(s, "WidgetBlueprint")
        || text::eq_caseless(s, "AnimBlueprint") || text::eq_caseless(s, "DataAsset")
        || text::eq_caseless(s, "PrimaryDataAsset") || text::eq_caseless(s, "DataTable")
        || text::eq_caseless(s, "CurveTable") || text::eq_caseless(s, "CurveFloat")
        || text::eq_caseless(s, "CurveVector") || text::eq_caseless(s, "CurveLinearColor")
        || text::eq_caseless(s, "UserDefinedStruct") || text::eq_caseless(s, "UserDefinedEnum")
        || text::eq_caseless(s, "BehaviorTree") || text::eq_caseless(s, "BlackboardData")
}

pub open spec fn resource_class(s: Seq<char>) -> bool {
    ||| text::same_caseless(s, "Texture"@)
    ||| text::same_caseless(s, "Texture2D"@)
    ||| text::same_caseless(s, "TextureCube"@)
    ||| text::same_caseless(s, "TextureRenderTarget2D"@)
    ||| text::same_caseless(s, "TextureRenderTargetCube"@)
    ||| text::same_caseless(s, "Material"@)
    ||| text::same_caseless(s, "MaterialInstance"@)
    ||| text::same_caseless(s, "MaterialFunction"@)
    ||| text::same_caseless(s, "MaterialParameterCollection"@)
    ||| text::same_caseless(s, "StaticMesh"@)
    ||| text::same_caseless(s, "SkeletalMesh"@)
    ||| text::same_caseless(s, "Skeleton"@)
    ||| text::same_caseless(s, "PhysicsAsset"@)
    ||| text::same_caseless(s, "AnimSequence"@)
    ||| text::same_caseless(s, "AnimMontage"@)
    ||| text::same_caseless(s, "BlendSpace"@)
    ||| text::same_caseless(s, "BlendSpace1D"@)
    ||| text::same_caseless(s, "AimOffsetBlendSpace"@)
    ||| text::same_caseless(s, "AimOffsetBlendSpace1D"@)
    ||| text::same_caseless(s, "PoseAsset"@)
    ||| text::same_caseless(s, "SoundWave"@)
    ||| text::same_caseless(s, "SoundCue"@)
    ||| text::same_caseless(s, "SoundClass"@)
    ||| text::same_caseless(s, "MetaSoundSource"@)
    ||| text::same_caseless(s, "NiagaraSystem"@)
    ||| text::same_caseless(s, "NiagaraEmitter"@)
    ||| text::same_caseless(s, "ParticleSystem"@)
    ||| text::same_caseless(s, "MediaSource"@)
    ||| text::same_caseless(s, "MediaPlayer"@)
    ||| text::same_caseless(s, "Font"@)
}

/// The class is one of assets that hold nothing but a resource.
pub fn is_resource_only_asset_class(class_name: &str) -> (r: bool)
    ensures
        r == resource_class(class_name@),
{
    let s = class_name;
    text::eq_caseless(s, "Texture") || text::eq_caseless(s, "Texture2D") || text::eq_caseless(
        s,
        "TextureCube",
    ) || text::eq_caseless(s, "TextureRenderTarget2D") || text::eq_caseless(
        s,
        "TextureRenderTargetCube",
    ) || text::eq_caseless(s, "Material") || text::eq_caseless(s, "MaterialInstance")
        || text::eq_caseless(s, "MaterialFunction") || text::eq_caseless(
        s,
        "MaterialParameterCollection",
    ) || text::eq_caseless(s, "StaticMesh") || text::eq_caseless(s, "SkeletalMesh")
        || text::eq_caseless(s, "Skeleton") || text::eq_caseless(s, "PhysicsAsset")
        || text::eq_caseless(s, "AnimSequence") || text::eq_caseless(s, "AnimMontage")
        || text::eq_caseless(s, "BlendSpace") || text::eq_caseless(s, "BlendSpace1D")
        || text::eq_caseless(s, "AimOffsetBlendSpace") || text::eq_caseless(
        s,
        "AimOffsetBlendSpace1D",
    ) || text::eq_caseless(s, "PoseAsset") || text::eq_caseless(s, "SoundWave")
        || text::eq_caseless(s, "SoundCue") || text::eq_caseless(s, "SoundClass")
        || text::eq_caseless(s, "MetaSoundSource") || text::eq_caseless(s, "NiagaraSystem")
        || text::eq_caseless(s, "NiagaraEmitter") || text::eq_caseless(s, "ParticleSystem")
        || text::eq_caseless(s, "MediaSource") || text::eq_caseless(s, "MediaPlayer")
        || text::eq_caseless(s, "Font")
}

/// What stands behind the last dot or colon.
pub open spec fn leaf(path: Seq<char>) -> Seq<char> {
    text::last_part(text::last_part(path, '.'), ':')
}

/// The name of a class at the end of its path.
pub fn asset_class_leaf(path: &str) -> (r: &str)
    ensures
        r@ == leaf(path@),
{
    text::last_part_of(text::last_part_of(path, '.'), ':')
}

pub open spec fn without_extension(s: Seq<char>) -> Seq<char> {
    if text::has_char(s, '.') {
        s.take(text::after_last(s, '.', s.len() as int) - 1)
    } else {
        s
    }
}

/// The Unreal path of the asset in a file: what stands behind the content directory, without its
/// extension; outside such a directory, the path of the file.
pub open spec fn asset_path_of(path: Seq<char>) -> Seq<char> {
    let s = slashed_path(path);
    match text::find(s, "/Content/"@) {
        Some(i) => "/Game/"@ + without_extension(
            s.subrange(i + "/Content/"@.len(), s.len() as int),
        ),
        None => s,
    }
}

fn cut_extension(s: &str) -> (r: &str)
    ensures
        r@ == without_extension(s@),
{
    let whole = s.unicode_len();
    let tail = text::last_part_of(s, '.');
    let n: usize = tail.unicode_len();
    proof {
        lemma_after_last(s@, '.', s@.len() as int);
    }
    if text::contains_char(s, '.') {
        let r = s.substring_char(0, whole - n - 1);
        assert(r@ =~= without_extension(s@));
        r
    } else {
        s
    }
}

proof fn lemma_after_last(s: Seq<char>, c: char, upto: int)
    requires
        0 <= upto <= s.len(),
    ensures
        0 <= text::after_last(s, c, upto) <= upto,
        text::after_last(s, c, upto) == 0 ==> forall|i: int| 0 <= i < upto ==> s[i] != c,
    decreases upto,
{
    if upto > 0 && s[upto - 1] != c {
        lemma_after_last(s, c, upto - 1);
    }
}

/// Converts the path of a file to the Unreal path of its asset.
pub fn to_asset_path(path: &str) -> (r: String)
    ensures
        r@ == asset_path_of(path@),
{
    let normalized = normalize_path(path);
    proof {
        reveal_strlit("/Content/");
        text::lemma_find_from(normalized@, "/Content/"@, 0);
    }
    match text::find_text(&normalized, "/Content/") {
        Some(i) => {
            let n: usize = normalized.as_str().unicode_len();
            let sub = normalized.as_str().substring_char(i + 9, n);
            text::concat2("/Game/", cut_extension(sub))
        },
        None => normalized,
    }
}

pub open spec fn is_uasset(extension: Option<Seq<char>>) -> bool {
    match extension {
        Some(e) => text::lower(e) == "uasset"@,
        None => false,
    }
}

/// The extension is that of a file that may be indexed.
pub fn is_index_candidate_asset_file(extension: Option<&str>) -> (r: bool)
    ensures
        r == is_uasset(text::opt_str(extension)),
{
    match extension {
        Some(e) => text::same(&text::to_lower(e), "uasset"),
        None => false,
    }
}

pub open spec fn logical_import(s: Seq<char>) -> bool {
    logical_class(leaf(s)) || leaf(s) == "BlueprintGeneratedClass"@ || leaf(s)
        == "WidgetBlueprintGeneratedClass"@ || leaf(s) == "AnimBlueprintGeneratedClass"@
}

pub open spec fn from_package(s: Seq<char>) -> bool {
    text::starts(s, "/Script/"@) || text::starts(s, "/Game/"@)
}

/// The asset is worth a full index: it has a parent class, or its class or imports say that it
/// holds logic or data.
pub open spec fn fully_indexed(extension: Option<Seq<char>>, r: RecordView) -> bool {
    let imports = r.imports;
    let by_imports = exists|i: int|
        0 <= i < imports.len() && logical_import(#[trigger] imports[i]);
    let by_functions = r.functions.len() > 0 && exists|i: int|
        0 <= i < imports.len() && from_package(#[trigger] imports[i]);
    is_uasset(extension) && (r.parent_class is Some || match r.asset_class {
        Some(c) => !resource_class(leaf(c)) && (logical_class(leaf(c)) || from_package(c)
            || by_imports || by_functions),
        None => by_imports || by_functions,
    })
}

fn imports_indicate_logical_asset(imports: &Vec<String>) -> (r: bool)
    ensures
        r == exists|i: int|
            0 <= i < text::texts(imports@).len() && logical_import(
                #[trigger] text::texts(imports@)[i],
            ),
{
    let ghost list = text::texts(imports@);
    let n: usize = imports.len();
    let mut i: usize = 0;
    while i < n
        invariant
            list == text::texts(imports@),
            n == imports@.len(),
            i <= n,
            forall|j: int| 0 <= j < i ==> !logical_import(#[trigger] list[j]),
        decreases n - i,
    {
        assert(list[i as int] == imports@[i as int]@);
        let tail = asset_class_leaf(&imports[i]);
        if is_explicit_logical_asset_class(tail) || text::same(tail, "BlueprintGeneratedClass")
            || text::same(tail, "WidgetBlueprintGeneratedClass") || text::same(
            tail,
            "AnimBlueprintGeneratedClass",
        ) {
            assert(logical_import(list[i as int]));
            return true;
        }
        i = i + 1;
    }
    false
}

fn imports_from_package(imports: &Vec<String>) -> (r: bool)
    ensures
        r == exists|i: int|
            0 <= i < text::texts(imports@).len() && from_package(
                #[trigger] text::texts(imports@)[i],
            ),
{
    let ghost list = text::texts(imports@);
    let n: usize = imports.len();
    let mut i: usize = 0;
    while i < n
        invariant
            list == text::texts(imports@),
            n == imports@.len(),
            i <= n,
            forall|j: int| 0 <= j < i ==> !from_package(#[trigger] list[j]),
        decreases n - i,
    {
        assert(list[i as int] == imports@[i as int]@);
        if text::starts_with(&imports[i], "/Script/") || text::starts_with(
            &imports[i],
            "/Game/",
        ) {
            assert(from_package(list[i as int]));
            return true;
        }
        i = i + 1;
    }
    false
}

fn likely_fallback_logical_asset(record: &AssetRecord) -> (r: bool)
    ensures
        r == (record.functions@.len() > 0 && exists|i: int|
            0 <= i < text::texts(record.imports@).len() && from_package(
                #[trigger] text::texts(record.imports@)[i],
            )),
{
    record.functions.len() > 0 && imports_from_package(&record.imports)
}

/// Whether the asset of a file with this extension is indexed in full.
pub fn should_fully_index_asset(extension: Option<&str>, record: &AssetRecord) -> (r: bool)
    ensures
        r == fully_indexed(text::opt_str(extension), record@),
{
    assert(text::texts(record.functions@).len() == record.functions@.len());
    if !is_index_candidate_asset_file(extension) {
        return false;
    }
    if record.parent_class.is_some() {
        return true;
    }
    match &record.asset_class {
        Some(c) => {
            let name = asset_class_leaf(c);
            if is_resource_only_asset_class(name) {
                return false;
            }
            if is_explicit_logical_asset_class(name) {
                return true;
            }
            if text::starts_with(c, "/Script/") || text::starts_with(c, "/Game/") {
                return true;
            }
        },
        None => {},
    }
    imports_indicate_logical_asset(&record.imports) || likely_fallback_logical_asset(record)
}

/// Keeps the record of an asset that is indexed in full.
pub fn filter_indexed_asset_record(extension: Option<&str>, record: AssetRecord) -> (r: Option<AssetRecord>)
    ensures
        opt_record(r) == if fully_indexed(text::opt_str(extension), record@) {
            Some(record@)
        } else {
            None
        },
{
    if should_fully_index_asset(extension, &record) {
        Some(record)
    } else {
        None
    }
}

/// Whether a class that was read at the head of a file spares the rest of it.
pub fn skips_deep_parse(asset_class: Option<&str>) -> (r: bool)
    ensures
        r == match text::opt_str(asset_class) {
            Some(c) => resource_class(leaf(c)),
            None => false,
        },
{
    match asset_class {
        Some(c) => is_resource_only_asset_class(asset_class_leaf(c)),
        None => false,
    }
}

pub open spec fn ignored_directory(name: Seq<char>) -> bool {
    name == "Intermediate"@ || name == "Binaries"@ || name == "Build"@ || name == "Saved"@ || name
        == ".git"@ || name == ".vs"@ || name == "DerivedDataCache"@ || name == "ExternalActors"@
        || name == "ExternalObjects"@
}

/// Whether a directory of this name is left out of a scan.
pub fn is_ignored_dir(name: &str) -> (r: bool)
    ensures
        r == ignored_directory(name@),
{
    text::same(name, "Intermediate") || text::same(name, "Binaries") || text::same(name, "Build")
        || text::same(name, "Saved") || text::same(name, ".git") || text::same(name, ".vs")
        || text::same(name, "DerivedDataCache") || text::same(name, "ExternalActors")
        || text::same(name, "ExternalObjects")
}

/// Whether a character has the Unicode property Uppercase.
pub uninterp spec fn unicode_uppercase(c: char) -> bool;

/// `char::is_uppercase` tells whether the character has the property Uppercase; of the ASCII
/// characters these are the letters A to Z.
pub assume_specification[ char::is_uppercase ](c: char) -> (r: bool)
    ensures
        r == unicode_uppercase(c),
        (c as u32) < 128 ==> r == text::ascii_upper(c),
;

pub open spec fn type_prefix(c: char) -> bool {
    c == 'a' || c == 'u' || c == 'f' || c == 'e' || c == 't' || c == 's'
}

/// The name of the class that an asset is looked up by.
pub open spec fn class_of_input(input: Seq<char>) -> Seq<char> {
    if text::starts(input, "/Script/"@) {
        text::last_part(input, '.')
    } else {
        input
    }
}

/// The class name begins with a letter that Unreal puts before the names of types.
pub open spec fn has_type_prefix(s: Seq<char>) -> bool {
    s.len() >= 2 && type_prefix(text::lower_char(s[0])) && unicode_uppercase(s[1])
}

/// The names under which an asset may be listed: that of the class, with its prefix or without.
pub open spec fn lookup_names(input: Seq<char>) -> Seq<Seq<char>> {
    let c = class_of_input(input);
    sorted_set(
        if has_type_prefix(c) {
            seq![text::lower(c), text::lower(c.subrange(1, c.len() as int))]
        } else {
            seq![text::lower(c)]
        },
    )
}

pub fn make_asset_lookup_names(input: &str) -> (r: Vec<String>)
    ensures
        text::texts(r@) == lookup_names(input@),
{
    let class_name = if text::starts_with(input, "/Script/") {
        text::last_part_of(input, '.')
    } else {
        input
    };
    let mut names: Vec<String> = Vec::new();
    names.push(text::to_lower(class_name));
    assert(text::texts(names@) =~= seq![text::lower(class_name@)]);
    let n: usize = class_name.unicode_len();
    if n >= 2 {
        let c = text::to_lower_char(class_name.get_char(0));
        if (c == 'a' || c == 'u' || c == 'f' || c == 'e' || c == 't' || c == 's')
            && class_name.get_char(1).is_uppercase() {
            names.push(text::to_lower(class_name.substring_char(1, n)));
            assert(text::texts(names@) =~= seq![
                text::lower(class_name@),
                text::lower(class_name@.subrange(1, n as int)),
            ]);
        }
    }
    sorted_strings(&names)
}

} // verus!
