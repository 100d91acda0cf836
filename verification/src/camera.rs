//! Camera descriptions split into roles (main, wide, ultra-wide, telephoto).

use vstd::prelude::*;
use crate::text::{
    chars_of, concat_str, contains_seq, lemma_split_on_concat, lemma_split_on_no_sep,
    lemma_trimmed_nonempty_concat, lemma_trimmed_nonempty_single, lowercase_of, split_chars,
    split_on, str_contains, string_views, to_lowercase, trim_ws, trimmed_nonempty,
    trimmed_nonempty_of,
};
use crate::specs::{Cameras, CamerasModel};

verus! {

/// The keyword rules of one vendor's camera parser.
#[derive(Clone, Copy, PartialEq, Eq)]
pub enum CameraRule {
    /// `tele` before `ultra` before `wide`.
    Oppo,
    /// `tele` or `periscope`, then `ultra` or `ultrawide`, then `wide` without `ultra`.
    Samsung,
    /// `tele`, then `ultra` or `ultrawide`, then `wide` without `ultra`.
    Xiaomi,
}

/// The role a camera description is given.
#[derive(Clone, Copy, PartialEq, Eq)]
pub enum Role {
    Telephoto,
    UltraWide,
    Wide,
    Unassigned,
}

/// The role of a description, decided on its lowercased text `low`.
pub open spec fn role_of(rule: CameraRule, low: Seq<char>) -> Role {
    let tele = contains_seq(low, "tele"@);
    let ultra = contains_seq(low, "ultra"@);
    let wide = contains_seq(low, "wide"@);
    match rule {
        CameraRule::Oppo => {
            if tele { Role::Telephoto }
            else if ultra { Role::UltraWide }
            else if wide { Role::Wide }
            else { Role::Unassigned }
        },
        CameraRule::Samsung => {
            if tele || contains_seq(low, "periscope"@) { Role::Telephoto }
            else if ultra || contains_seq(low, "ultrawide"@) { Role::UltraWide }
            else if wide && !ultra { Role::Wide }
            else { Role::Unassigned }
        },
        CameraRule::Xiaomi => {
            if tele { Role::Telephoto }
            else if ultra || contains_seq(low, "ultrawide"@) { Role::UltraWide }
            else if wide && !ultra { Role::Wide }
            else { Role::Unassigned }
        },
    }
}

/// The role of a description from its lowercased text.
pub fn role_for(rule: CameraRule, low: &str) -> (r: Role)
    ensures
        r == role_of(rule, low@),
{
    let tele = str_contains(low, "tele");
    let ultra = str_contains(low, "ultra");
    let wide = str_contains(low, "wide");
    match rule {
        CameraRule::Oppo => {
            if tele { Role::Telephoto }
            else if ultra { Role::UltraWide }
            else if wide { Role::Wide }
            else { Role::Unassigned }
        },
        CameraRule::Samsung => {
            if tele || str_contains(low, "periscope") { Role::Telephoto }
            else if ultra || str_contains(low, "ultrawide") { Role::UltraWide }
            else if wide && !ultra { Role::Wide }
            else { Role::Unassigned }
        },
        CameraRule::Xiaomi => {
            if tele { Role::Telephoto }
            else if ultra || str_contains(low, "ultrawide") { Role::UltraWide }
            else if wide && !ultra { Role::Wide }
            else { Role::Unassigned }
        },
    }
}

/// The descriptions in a camera text: the pieces between `,` and `+`,
/// trimmed, the empty ones dropped.
pub open spec fn camera_parts(s: Seq<char>) -> Seq<Seq<char>> {
    trimmed_nonempty(split_on(s, seq![',', '+']))
}

/// The record after the description `p`, at position `i` among the
/// descriptions, is given `role`. A telephoto, ultra-wide or wide description
/// replaces the one before; an unassigned one becomes the main camera when it
/// comes first and no main camera is set, and is otherwise appended to
/// `other` after `", "`.
pub open spec fn camera_step(c: CamerasModel, i: int, p: Seq<char>, role: Role) -> CamerasModel {
    match role {
        Role::Telephoto => CamerasModel { telephoto: Some(p), ..c },
        Role::UltraWide => CamerasModel { ultra_wide: Some(p), ..c },
        Role::Wide => CamerasModel { wide: Some(p), ..c },
        Role::Unassigned => {
            if i == 0 && c.main is None {
                CamerasModel { main: Some(p), ..c }
            } else {
                CamerasModel {
                    other: Some(
                        match c.other {
                            Some(prev) => prev + ", "@ + p,
                            None => p,
                        },
                    ),
                    ..c
                }
            }
        },
    }
}

/// The record built from the descriptions `parts`, taken in order.
pub open spec fn cameras_from(rule: CameraRule, parts: Seq<Seq<char>>) -> CamerasModel
    decreases parts.len(),
{
    if parts.len() == 0 {
        CamerasModel::empty()
    } else {
        camera_step(
            cameras_from(rule, parts.drop_last()),
            parts.len() - 1,
            parts.last(),
            role_of(rule, lowercase_of(parts.last())),
        )
    }
}

/// The camera record a vendor's parser builds from a camera text.
pub open spec fn parse_camera_spec(rule: CameraRule, s: Seq<char>) -> CamerasModel {
    cameras_from(rule, camera_parts(s))
}

/// Parses a camera text with the keyword rules of `rule`.
pub fn parse_camera_with(rule: CameraRule, s: &str) -> (c: Cameras)
    ensures
        c@ == parse_camera_spec(rule, s@),
{
    let v = chars_of(s);
    let seps = vec![',', '+'];
    let pieces = split_chars(v.as_slice(), seps.as_slice());
    proof {
        assert(seps@ =~= seq![',', '+']);
    }
    let parts = trimmed_nonempty_of(&pieces);
    let ghost ps = string_views(parts@);
    let mut cams = Cameras::empty();
    let mut i: usize = 0;
    while i < parts.len()
        invariant
            i <= parts@.len(),
            ps == string_views(parts@),
            ps == camera_parts(s@),
            cams@ == cameras_from(rule, ps.take(i as int)),
        decreases parts@.len() - i,
    {
        let p = &parts[i];
        let low = to_lowercase(p.as_str());
        let role = role_for(rule, low.as_str());
        let ghost before = cams@;
        match role {
            Role::Telephoto => {
                cams.telephoto = Some(p.clone());
            },
            Role::UltraWide => {
                cams.ultra_wide = Some(p.clone());
            },
            Role::Wide => {
                cams.wide = Some(p.clone());
            },
            Role::Unassigned => {
                if i == 0 && cams.main.is_none() {
                    cams.main = Some(p.clone());
                } else {
                    let next = match &cams.other {
                        Some(prev) => {
                            let a = concat_str(prev.as_str(), ", ");
                            concat_str(a.as_str(), p.as_str())
                        },
                        None => p.clone(),
                    };
                    cams.other = Some(next);
                }
            },
        }
        proof {
            let t = ps.take(i + 1);
            assert(t.drop_last() =~= ps.take(i as int));
            assert(t.last() == p@);
            assert(cams@ == camera_step(before, i as int, p@, role));
        }
        i = i + 1;
    }
    proof {
        assert(ps.take(parts@.len() as int) =~= ps);
    }
    cams
}


/// The main camera is the first description exactly when that description
/// matches no role keyword, and otherwise there is none; telephoto,
/// ultra-wide and wide cameras are descriptions from the text; macro and
/// selfie cameras are never set.
pub proof fn lemma_camera_roles(rule: CameraRule, parts: Seq<Seq<char>>)
    ensures
        cameras_from(rule, parts).main == (if parts.len() > 0 && role_of(rule, lowercase_of(parts[0])) == Role::Unassigned {
            Some(parts[0])
        } else {
            None::<Seq<char>>
        }),
        cameras_from(rule, parts).telephoto matches Some(x) ==> parts.contains(x),
        cameras_from(rule, parts).ultra_wide matches Some(x) ==> parts.contains(x),
        cameras_from(rule, parts).wide matches Some(x) ==> parts.contains(x),
        cameras_from(rule, parts).macro_camera is None,
        cameras_from(rule, parts).selfie_camera is None,
    decreases parts.len(),
{
    if parts.len() > 0 {
        let prev = parts.drop_last();
        lemma_camera_roles(rule, prev);
        let c = cameras_from(rule, prev);
        if let Some(x) = c.telephoto {
            let i = choose|i: int| 0 <= i < prev.len() && prev[i] == x;
            assert(parts[i] == x);
        }
        if let Some(x) = c.ultra_wide {
            let i = choose|i: int| 0 <= i < prev.len() && prev[i] == x;
            assert(parts[i] == x);
        }
        if let Some(x) = c.wide {
            let i = choose|i: int| 0 <= i < prev.len() && prev[i] == x;
            assert(parts[i] == x);
        }
        assert(parts[parts.len() - 1] == parts.last());
        if parts.len() > 1 {
            assert(prev[0] == parts[0]);
        }
    }
}

/// Whether `c` separates camera descriptions: `,` or `+`.
pub open spec fn is_camera_separator(c: char) -> bool {
    c == ',' || c == '+'
}

/// A camera text without `,` or `+` is one description, its trim, when that
/// trim is not empty, and none otherwise: `/` and every other character
/// stay inside the description.
pub proof fn lemma_camera_parts_single(s: Seq<char>)
    requires
        forall|i: int| 0 <= i < s.len() ==> !is_camera_separator(#[trigger] s[i]),
    ensures
        camera_parts(s) == (if trim_ws(s).len() > 0 { seq![trim_ws(s)] } else { Seq::<Seq<char>>::empty() }),
{
    let seps = seq![',', '+'];
    assert forall|i: int| 0 <= i < s.len() implies !seps.contains(#[trigger] s[i]) by {
        if seps.contains(s[i]) {
            let j = choose|j: int| 0 <= j < seps.len() && seps[j] == s[i];
            assert(is_camera_separator(s[i]));
        }
    }
    lemma_split_on_no_sep(s, seps);
    lemma_trimmed_nonempty_single(s);
}

/// Both `,` and `+` separate descriptions: the descriptions of a text cut at
/// one of them are those before it followed by those after it.
pub proof fn lemma_camera_parts_split(a: Seq<char>, c: char, b: Seq<char>)
    requires
        is_camera_separator(c),
    ensures
        camera_parts(a + seq![c] + b) == camera_parts(a) + camera_parts(b),
{
    let seps = seq![',', '+'];
    assert(seps.contains(c)) by {
        if c == ',' { assert(seps[0] == c); } else { assert(seps[1] == c); }
    }
    lemma_split_on_concat(a, c, b, seps);
    lemma_trimmed_nonempty_concat(split_on(a, seps), split_on(b, seps));
}

/// A camera text that is a single description (no `,` or `+`, non-empty
/// once trimmed) sets exactly one role, to the whole trimmed text: the role
/// its keywords give it, or the main camera when it has none.
pub proof fn lemma_camera_single(rule: CameraRule, s: Seq<char>)
    requires
        forall|i: int| 0 <= i < s.len() ==> !is_camera_separator(#[trigger] s[i]),
        trim_ws(s).len() > 0,
    ensures
        ({
            let t = trim_ws(s);
            let c = parse_camera_spec(rule, s);
            let none = CamerasModel::empty();
            match role_of(rule, lowercase_of(t)) {
                Role::Telephoto => c == CamerasModel { telephoto: Some(t), ..none },
                Role::UltraWide => c == CamerasModel { ultra_wide: Some(t), ..none },
                Role::Wide => c == CamerasModel { wide: Some(t), ..none },
                Role::Unassigned => c == CamerasModel { main: Some(t), ..none },
            }
        }),
{
    lemma_camera_parts_single(s);
    let t = trim_ws(s);
    let ps = seq![t];
    assert(ps.drop_last() =~= Seq::<Seq<char>>::empty());
    assert(cameras_from(rule, ps.drop_last()) == CamerasModel::empty());
    assert(ps.last() == t);
}

/// The role keywords, on a description's lowercased text: `tele` always
/// means telephoto; without a telephoto keyword, `ultra` means ultra-wide;
/// with neither, `wide` means wide; with none of the keywords (and, for
/// Samsung, no `periscope`), the description has no role. Samsung also
/// takes `periscope` as telephoto.
pub proof fn lemma_role_keywords(rule: CameraRule, low: Seq<char>)
    ensures
        contains_seq(low, "tele"@) ==> role_of(rule, low) == Role::Telephoto,
        rule == CameraRule::Samsung && contains_seq(low, "periscope"@) ==> role_of(rule, low) == Role::Telephoto,
        !contains_seq(low, "tele"@) && !(rule == CameraRule::Samsung && contains_seq(low, "periscope"@))
            && contains_seq(low, "ultra"@) ==> role_of(rule, low) == Role::UltraWide,
        !contains_seq(low, "tele"@) && !(rule == CameraRule::Samsung && contains_seq(low, "periscope"@))
            && !contains_seq(low, "ultra"@) && !contains_seq(low, "ultrawide"@)
            && contains_seq(low, "wide"@) ==> role_of(rule, low) == Role::Wide,
        !contains_seq(low, "tele"@) && !contains_seq(low, "periscope"@) && !contains_seq(low, "ultra"@)
            && !contains_seq(low, "ultrawide"@) && !contains_seq(low, "wide"@)
            ==> role_of(rule, low) == Role::Unassigned,
{
}

} // verus!
