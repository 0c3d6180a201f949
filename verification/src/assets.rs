//! The UI assets embedded in the plugin, and the check that the UI manifest
//! names only embedded assets.
use vstd::prelude::*;
use crate::json::{json_error, json_member, json_member_of, Member};
use crate::text::{
    chars_equal, chars_of, copy_range, last_index, last_index_before, lemma_last_index_bounds,
    lemma_last_index_skip,
};

verus! {

/// An embedded UI asset: its path (`ui/...` or `i18n/...`), its content
/// type and its bytes. Its content type is always the one that its name's
/// extension gives.
#[derive(Debug)]
pub struct Asset {
    name: String,
    content_type: String,
    bytes: Vec<u8>,
}

/// What an asset holds.
pub struct AssetView {
    pub name: Seq<char>,
    pub content_type: Seq<char>,
    pub bytes: Seq<u8>,
}

impl View for Asset {
    type V = AssetView;

    closed spec fn view(&self) -> AssetView {
        AssetView { name: self.name@, content_type: self.content_type@, bytes: self.bytes@ }
    }
}

/// The end of the last component of a path that ends at `end`: a trailing
/// `/` and a trailing `.` component are skipped, as `Path`'s components
/// skip them (a leading `.` stays).
pub open spec fn name_end(name: Seq<char>, end: int) -> int
    decreases end,
{
    if end <= 0 {
        0
    } else if name[end - 1] == '/' {
        name_end(name, end - 1)
    } else if name[end - 1] == '.' && end >= 2 && name[end - 2] == '/' {
        name_end(name, end - 1)
    } else {
        end
    }
}

/// The file name of a path: its last component.
pub open spec fn file_name(name: Seq<char>) -> Seq<char> {
    let end = name_end(name, name.len() as int);
    name.subrange(last_index(name, '/', end) + 1, end)
}

/// The extension of an asset's name, as `Path::extension` reads it: what
/// follows the last `.` of the file name, unless that `.` is the file
/// name's first character or there is none.
pub open spec fn extension(name: Seq<char>) -> Option<Seq<char>> {
    let file = file_name(name);
    let dot = last_index(file, '.', file.len() as int);
    if dot <= 0 {
        None
    } else {
        Some(file.subrange(dot + 1, file.len() as int))
    }
}

/// The content type of an embedded asset, by its extension.
pub open spec fn content_type_for(name: Seq<char>) -> Seq<char> {
    match extension(name) {
        Some(ext) => if ext == "js"@ {
            "text/javascript"@
        } else if ext == "css"@ {
            "text/css"@
        } else if ext == "json"@ {
            "application/json"@
        } else {
            "application/octet-stream"@
        },
        None => "application/octet-stream"@,
    }
}

/// The extension of `dir/stem.ext` is `ext`, whatever the lengths of the
/// directory, the stem and the extension: it is what follows the file
/// name's last `.`, where the stem does not start with `.`. So `.js`, `.css`
/// and `.json` files get their content types.
pub proof fn extension_follows_last_dot(dir: Seq<char>, stem: Seq<char>, ext: Seq<char>)
    requires
        dir.len() == 0 || dir.last() == '/',
        stem.len() > 0,
        stem[0] != '.',
        forall|k: int| 0 <= k < stem.len() ==> #[trigger] stem[k] != '/',
        forall|k: int| 0 <= k < ext.len() ==> #[trigger] ext[k] != '/' && ext[k] != '.',
    ensures
        extension(dir + stem + seq!['.'] + ext) == Some(ext),
        ext == "js"@ ==> content_type_for(dir + stem + seq!['.'] + ext) == "text/javascript"@,
        ext == "css"@ ==> content_type_for(dir + stem + seq!['.'] + ext) == "text/css"@,
        ext == "json"@ ==> content_type_for(dir + stem + seq!['.'] + ext) == "application/json"@,
{
    let file = stem + seq!['.'] + ext;
    let name = dir + stem + seq!['.'] + ext;
    let len = name.len() as int;
    let d = dir.len() as int;
    assert(name =~= dir + file);
    assert forall|k: int| 0 <= k < file.len() implies #[trigger] file[k] != '/' by {
        if k < stem.len() {
            assert(file[k] == stem[k]);
        } else if k > stem.len() {
            assert(file[k] == ext[k - stem.len() - 1]);
        }
    }
    // the name ends in its file name
    if ext.len() > 0 {
        assert(name[len - 1] == ext[ext.len() - 1]);
    } else {
        assert(name[len - 1] == '.');
        assert(name[len - 2] == stem[stem.len() - 1]);
    }
    assert(name_end(name, len) == len);
    // the file name starts after the directory's last `/`
    assert forall|k: int| d <= k < len implies name[k] != '/' by {
        assert(name[k] == file[k - d]);
    }
    lemma_last_index_skip(name, '/', d, len);
    if d > 0 {
        assert(name[d - 1] == dir.last());
    }
    assert(last_index(name, '/', len) + 1 == d);
    assert(name.subrange(d, len) =~= file);
    // the file name's last `.` follows the stem
    let flen = file.len() as int;
    let s = stem.len() as int;
    assert forall|k: int| s + 1 <= k < flen implies file[k] != '.' by {
        assert(file[k] == ext[k - s - 1]);
    }
    lemma_last_index_skip(file, '.', s + 1, flen);
    assert(file[s] == '.');
    assert(last_index(file, '.', flen) == s);
    assert(file.subrange(s + 1, flen) =~= ext);
    reveal_strlit("js");
    reveal_strlit("css");
    reveal_strlit("json");
    assert("js"@.len() == 2 && "css"@.len() == 3 && "json"@.len() == 4);
}

proof fn lemma_name_end_prefix(a: Seq<char>, b: Seq<char>, k: int)
    requires
        0 <= k <= a.len(),
    ensures
        name_end(a + b, k) == name_end(a, k),
    decreases k,
{
    if k > 0 {
        assert((a + b)[k - 1] == a[k - 1]);
        if k >= 2 {
            assert((a + b)[k - 2] == a[k - 2]);
        }
        lemma_name_end_prefix(a, b, k - 1);
    }
}

proof fn lemma_last_index_prefix(a: Seq<char>, b: Seq<char>, c: char, k: int)
    requires
        0 <= k <= a.len(),
    ensures
        last_index(a + b, c, k) == last_index(a, c, k),
    decreases k,
{
    if k > 0 {
        assert((a + b)[k - 1] == a[k - 1]);
        lemma_last_index_prefix(a, b, c, k - 1);
    }
}

proof fn lemma_extension_of_prefix(name: Seq<char>, tail: Seq<char>)
    requires
        name_end(name + tail, (name + tail).len() as int) == name_end(name, name.len() as int),
    ensures
        extension(name + tail) == extension(name),
{
    let s = name + tail;
    let e = name_end(name, name.len() as int);
    lemma_name_end_bounds(name, name.len() as int);
    lemma_last_index_prefix(name, tail, '/', e);
    lemma_last_index_bounds(name, '/', e);
    let start = last_index(name, '/', e) + 1;
    assert(s.subrange(start, e) =~= name.subrange(start, e));
}

/// A trailing separator, or a trailing `.` component, does not change the
/// extension of a name, as `Path` ignores both.
pub proof fn extension_ignores_trailing_separator(name: Seq<char>)
    ensures
        extension(name + seq!['/']) == extension(name),
        extension(name + seq!['/', '.']) == extension(name),
{
    let len = name.len() as int;
    let s1 = name + seq!['/'];
    assert(s1[len] == '/');
    lemma_name_end_prefix(name, seq!['/'], len);
    assert(name_end(s1, len + 1) == name_end(s1, len));
    lemma_extension_of_prefix(name, seq!['/']);
    let s2 = name + seq!['/', '.'];
    assert(s2[len + 1] == '.' && s2[len] == '/');
    lemma_name_end_prefix(name, seq!['/', '.'], len);
    assert(name_end(s2, len + 2) == name_end(s2, len + 1));
    assert(name_end(s2, len + 1) == name_end(s2, len));
    lemma_extension_of_prefix(name, seq!['/', '.']);
}

proof fn lemma_name_end_bounds(name: Seq<char>, end: int)
    requires
        0 <= end <= name.len(),
    ensures
        0 <= name_end(name, end) <= end,
    decreases end,
{
    if end > 0 && (name[end - 1] == '/' || (name[end - 1] == '.' && end >= 2 && name[end - 2]
        == '/')) {
        lemma_name_end_bounds(name, end - 1);
    }
}

/// The content type that an asset named `name` is served with: JavaScript,
/// CSS and JSON by their extensions, anything else as octet stream.
pub fn content_type(name: &str) -> (res: &'static str)
    ensures
        res@ == content_type_for(name@),
{
    let chars = chars_of(name);
    proof {
        lemma_name_end_bounds(chars@, chars@.len() as int);
    }
    let mut end = chars.len();
    while end > 0 && (chars[end - 1] == '/' || (chars[end - 1] == '.' && end >= 2 && chars[end
        - 2] == '/'))
        invariant
            end <= chars.len(),
            name_end(chars@, end as int) == name_end(chars@, chars@.len() as int),
        decreases end,
    {
        end = end - 1;
    }
    let start = last_index_before(&chars, '/', end);
    let file = copy_range(&chars, start, end);
    proof {
        lemma_last_index_bounds(chars@, '/', end as int);
    }
    let dot = last_index_before(&file, '.', file.len());
    if dot <= 1 {
        return "application/octet-stream";
    }
    let ext = copy_range(&file, dot, file.len());
    if chars_equal(&ext, &chars_of("js")) {
        "text/javascript"
    } else if chars_equal(&ext, &chars_of("css")) {
        "text/css"
    } else if chars_equal(&ext, &chars_of("json")) {
        "application/json"
    } else {
        "application/octet-stream"
    }
}

impl Asset {
    /// Every asset is typed by its name.
    #[verifier::type_invariant]
    spec fn typed_by_name(self) -> bool {
        self.content_type@ == content_type_for(self.name@)
    }

    /// The catalog entry for an embedded file named `name`, its content type
    /// given by the name's extension.
    pub fn embedded(name: String, bytes: Vec<u8>) -> (res: Asset)
        ensures
            res@.name == name@,
            res@.bytes == bytes@,
            res@.content_type == content_type_for(name@),
    {
        let content_type = String::from_str(content_type(name.as_str()));
        Asset { name, content_type, bytes }
    }

    /// The asset's path.
    pub fn name(&self) -> (res: &String)
        ensures
            res@ == self@.name,
    {
        &self.name
    }

    /// The asset's content type, the one its name gives.
    pub fn content_type(&self) -> (res: &String)
        ensures
            res@ == self@.content_type,
            res@ == content_type_for(self@.name),
    {
        proof {
            use_type_invariant(self);
        }
        &self.content_type
    }

    /// The asset's bytes.
    pub fn bytes(&self) -> (res: &[u8])
        ensures
            res@ == self@.bytes,
    {
        self.bytes.as_slice()
    }
}

/// Whether `catalog` holds an asset named `name`.
pub open spec fn has_asset(catalog: Seq<Asset>, name: Seq<char>) -> bool {
    exists|k: int| 0 <= k < catalog.len() && (#[trigger] catalog[k])@.name == name
}

/// The first string of `items` that names no asset of `catalog`.
pub open spec fn first_missing(items: Seq<Option<String>>, catalog: Seq<Asset>) -> Option<
    Seq<char>,
>
    decreases items.len(),
{
    if items.len() == 0 {
        None
    } else {
        match items[0] {
            Some(name) => if has_asset(catalog, name@) {
                first_missing(items.drop_first(), catalog)
            } else {
                Some(name@)
            },
            None => first_missing(items.drop_first(), catalog),
        }
    }
}

/// What checking a manifest against `catalog` gives, where it parses: `Ok`,
/// or the error's message.
pub open spec fn manifest_check(assets: Member, catalog: Seq<Asset>) -> Result<(), Seq<char>> {
    match assets {
        Member::List(items) => match first_missing(items@, catalog) {
            Some(name) => Err("asset is not embedded: "@ + name),
            None => Ok(()),
        },
        _ => Err("manifest has no assets"@),
    }
}

/// Whether every string of `items` names an asset of `catalog`.
pub open spec fn all_embedded(items: Seq<Option<String>>, catalog: Seq<Asset>) -> bool {
    forall|i: int|
        0 <= i < items.len() && (#[trigger] items[i]) is Some ==> has_asset(catalog, items[i]->0@)
}

proof fn lemma_first_missing_none(items: Seq<Option<String>>, catalog: Seq<Asset>)
    ensures
        first_missing(items, catalog) is None <==> all_embedded(items, catalog),
    decreases items.len(),
{
    if items.len() > 0 {
        let rest = items.drop_first();
        lemma_first_missing_none(rest, catalog);
        if all_embedded(items, catalog) {
            assert forall|i: int| 0 <= i < rest.len() && (#[trigger] rest[i]) is Some implies has_asset(
                catalog,
                rest[i]->0@,
            ) by {
                assert(rest[i] == items[i + 1]);
            }
        }
        if first_missing(items, catalog) is None {
            assert forall|i: int| 0 <= i < items.len() && (#[trigger] items[i]) is Some implies has_asset(
                catalog,
                items[i]->0@,
            ) by {
                if i > 0 {
                    assert(items[i] == rest[i - 1]);
                }
            }
        }
    }
}

/// A manifest's assets check out exactly when every string of its `assets`
/// array names an embedded asset.
pub proof fn manifest_validates_iff_all_embedded(items: Vec<Option<String>>, catalog: Seq<Asset>)
    ensures
        manifest_check(Member::List(items), catalog) is Ok <==> all_embedded(items@, catalog),
{
    lemma_first_missing_none(items@, catalog);
}

/// A UI build embeds either none of the files that the manifest names or
/// all of them. Then the manifest checks out exactly when one file that it
/// names, such as `ui/screens.js`, is embedded.
pub proof fn manifest_validates_iff_bundle_embedded(
    items: Vec<Option<String>>,
    catalog: Seq<Asset>,
    marker: Seq<char>,
)
    requires
        exists|i: int| 0 <= i < items@.len() && #[trigger] items@[i] is Some && items@[i]->0@ == marker,
        has_asset(catalog, marker) ==> all_embedded(items@, catalog),
    ensures
        manifest_check(Member::List(items), catalog) is Ok <==> has_asset(catalog, marker),
{
    lemma_first_missing_none(items@, catalog);
    let i = choose|i: int| 0 <= i < items@.len() && #[trigger] items@[i] is Some && items@[i]->0@ == marker;
    if all_embedded(items@, catalog) {
        assert(has_asset(catalog, items@[i]->0@));
    }
}

/// Checks the `assets` member of a manifest against `catalog`: it must be an
/// array, and each of its strings must name an embedded asset.
pub fn check_manifest_assets(assets: Member, catalog: &[Asset]) -> (res: Result<(), String>)
    ensures
        match manifest_check(assets, catalog@) {
            Ok(()) => res is Ok,
            Err(message) => res matches Err(e) && e@ == message,
        },
{
    let ghost member = assets;
    let items = match assets {
        Member::List(items) => items,
        _ => return Err(String::from_str("manifest has no assets")),
    };
    let ghost all = items@;
    let mut i: usize = 0;
    assert(items@.skip(0) =~= items@);
    while i < items.len()
        invariant
            i <= items.len(),
            items@ == all,
            member matches Member::List(listed) && listed@ == all,
            member == assets,
            first_missing(all, catalog@) == first_missing(all.skip(i as int), catalog@),
        decreases items.len() - i,
    {
        assert(all.skip(i as int).drop_first() =~= all.skip(i + 1));
        assert(all.skip(i as int)[0] == all[i as int]);
        match &items[i] {
            Some(name) => {
                match ui_asset(catalog, name.as_str()) {
                    None => {
                        let mut message = String::from_str("asset is not embedded: ");
                        message.append(name.as_str());
                        assert(first_missing(all.skip(i as int), catalog@) == Some(name@));
                        return Err(message);
                    },
                    Some(_) => {},
                }
            },
            None => {},
        }
        i = i + 1;
    }
    assert(all.skip(i as int) =~= Seq::<Option<String>>::empty());
    Ok(())
}

/// The asset named `path`: the first in `catalog` with that name.
pub fn ui_asset<'a>(catalog: &'a [Asset], path: &str) -> (res: Option<&'a Asset>)
    ensures
        match res {
            Some(asset) => (exists|k: int|
                0 <= k < catalog@.len() && *asset == catalog@[k] && catalog@[k]@.name == path@
                    && forall|m: int| 0 <= m < k ==> (#[trigger] catalog@[m])@.name != path@)
                && asset@.content_type == content_type_for(path@),
            None => !has_asset(catalog@, path@),
        },
{
    let wanted = chars_of(path);
    let mut i: usize = 0;
    while i < catalog.len()
        invariant
            i <= catalog.len(),
            wanted@ == path@,
            forall|m: int| 0 <= m < i ==> (#[trigger] catalog@[m])@.name != path@,
        decreases catalog.len() - i,
    {
        let name = chars_of(catalog[i].name().as_str());
        if chars_equal(&name, &wanted) {
            let found = &catalog[i];
            proof {
                use_type_invariant(found);
            }
            return Some(found);
        }
        i = i + 1;
    }
    None
}

/// Checks the UI manifest: every string of its `assets` array must name an
/// embedded asset. A manifest that does not parse fails with serde_json's
/// message, one without an `assets` array with `manifest has no assets`,
/// and one that names a missing asset with `asset is not embedded: ` and the
/// first such name.
pub fn ui_manifest(manifest: &[u8], catalog: &[Asset]) -> (res: Result<(), String>)
    ensures
        match json_error(manifest@) {
            Some(message) => res matches Err(e) && e@ == message,
            None => match manifest_check(json_member_of(manifest@, "assets"@), catalog@) {
                Ok(()) => res is Ok,
                Err(message) => res matches Err(e) && e@ == message,
            },
        },
{
    let assets = json_member(manifest, "assets")?;
    check_manifest_assets(assets, catalog)
}

} // verus!
