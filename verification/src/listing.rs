//! The order in which cameras are listed: by name, without regard to case.
use vstd::prelude::*;
use vstd::string::*;

use crate::camera::{CameraConfig, CameraView};
use crate::config;
use crate::text;

verus! {

/// What a camera is ordered by.
pub open spec fn key(camera: CameraView) -> Seq<char> {
    text::lowercase(text::trimmed(camera.name))
}

/// Whether camera `a` comes before camera `b`.
pub open spec fn before(a: CameraView, b: CameraView) -> bool {
    text::precedes(key(a), key(b))
}

/// Where `camera` goes among the first `n` of listed cameras: behind those that do not come after
/// it.
pub open spec fn place(listed: Seq<CameraView>, camera: CameraView, n: int) -> int
    decreases n,
{
    if n <= 0 {
        0
    } else if before(camera, listed[n - 1]) {
        place(listed, camera, n - 1)
    } else {
        n
    }
}

/// The first `n` cameras in the order in which they are listed. Cameras that neither come before
/// the other stay in the order that they had.
pub open spec fn listed(cameras: Seq<CameraView>, n: int) -> Seq<CameraView>
    decreases n,
{
    if n <= 0 {
        Seq::empty()
    } else {
        let fewer = listed(cameras, n - 1);
        fewer.insert(place(fewer, cameras[n - 1], fewer.len() as int), cameras[n - 1])
    }
}

/// Whether no camera of a list comes before an earlier one.
pub open spec fn in_order(cameras: Seq<CameraView>) -> bool {
    forall|i: int, j: int|
        0 <= i < j < cameras.len() ==> !before(#[trigger] cameras[j], #[trigger] cameras[i])
}

proof fn lemma_place(listed: Seq<CameraView>, camera: CameraView, n: int)
    requires
        0 <= n <= listed.len(),
    ensures
        0 <= place(listed, camera, n) <= n,
        place(listed, camera, n) > 0 ==> !before(
            camera,
            listed[place(listed, camera, n) - 1],
        ),
        forall|i: int| place(listed, camera, n) <= i < n ==> before(camera, #[trigger] listed[i]),
    decreases n,
{
    if n > 0 && before(camera, listed[n - 1]) {
        lemma_place(listed, camera, n - 1);
    }
}

/// The list holds every camera once, in order.
pub proof fn lemma_listed(cameras: Seq<CameraView>, n: int)
    requires
        0 <= n <= cameras.len(),
    ensures
        listed(cameras, n).len() == n,
        in_order(listed(cameras, n)),
        listed(cameras, n).to_multiset() =~= cameras.take(n).to_multiset(),
    decreases n,
{
    broadcast use vstd::seq_lib::group_to_multiset_ensures;

    if n > 0 {
        lemma_listed(cameras, n - 1);
        let fewer = listed(cameras, n - 1);
        let camera = cameras[n - 1];
        let all = listed(cameras, n);
        lemma_place(fewer, camera, fewer.len() as int);
        let at = place(fewer, camera, fewer.len() as int);
        vstd::seq_lib::to_multiset_insert(fewer, at, camera);
        assert(cameras.take(n) =~= cameras.take(n - 1).push(camera));
        assert forall|i: int, j: int| 0 <= i < j < all.len() implies !before(
            #[trigger] all[j],
            #[trigger] all[i],
        ) by {
            if j < at {
                assert(all[i] == fewer[i] && all[j] == fewer[j]);
            } else if j == at {
                assert(all[i] == fewer[i]);
                if i < at - 1 {
                    assert(!before(fewer[at - 1], fewer[i]));
                    lemma_not_before_transitive(camera, fewer[at - 1], fewer[i]);
                }
            } else if i < at {
                assert(all[i] == fewer[i] && all[j] == fewer[j - 1]);
            } else if i == at {
                assert(all[j] == fewer[j - 1]);
                assert(before(camera, fewer[j - 1]));
                if before(fewer[j - 1], camera) {
                    text::lemma_precedes_transitive(key(camera), key(fewer[j - 1]), key(camera));
                    text::lemma_precedes_irreflexive(key(camera));
                }
            } else {
                assert(all[i] == fewer[i - 1] && all[j] == fewer[j - 1]);
            }
        }
    } else {
        assert(cameras.take(0) =~= Seq::<CameraView>::empty());
    }
}

proof fn lemma_not_before_transitive(a: CameraView, b: CameraView, c: CameraView)
    requires
        !before(a, b),
        !before(b, c),
    ensures
        !before(a, c),
{
    if before(a, c) {
        text::lemma_precedes_total(key(b), key(c));
        if key(b) != key(c) {
            text::lemma_precedes_transitive(key(a), key(c), key(b));
        }
    }
}

/// What a camera is ordered by.
fn key_of(camera: &CameraConfig) -> (res: String)
    ensures
        res@ == key(camera@),
{
    let name = text::trim(camera.name.as_str());
    name.as_str().to_lowercase()
}

/// The cameras in the order in which they are listed.
pub fn sorted_cameras(cameras: &Vec<CameraConfig>) -> (res: Vec<CameraConfig>)
    ensures
        config::views(res@) == listed(config::views(cameras@), cameras@.len() as int),
{
    let ghost all = config::views(cameras@);
    let mut out: Vec<CameraConfig> = Vec::new();
    let mut i: usize = 0;
    assert(config::views(out@) =~= Seq::<CameraView>::empty());
    while i < cameras.len()
        invariant
            i <= cameras@.len(),
            all == config::views(cameras@),
            config::views(out@) == listed(all, i as int),
        decreases cameras@.len() - i,
    {
        let ghost fewer = config::views(out@);
        let camera = cameras[i].clone();
        assert(camera@ == all[i as int]);
        let wanted = key_of(&camera);
        let mut at: usize = out.len();
        let mut found: bool = false;
        while at > 0 && !found
            invariant
                at <= out@.len(),
                fewer == config::views(out@),
                wanted@ == key(camera@),
                found ==> place(fewer, camera@, fewer.len() as int) == at,
                !found ==> place(fewer, camera@, fewer.len() as int) == place(
                    fewer,
                    camera@,
                    at as int,
                ),
            decreases
                at,
                (if found {
                    0int
                } else {
                    1int
                }),
        {
            assert(fewer[at - 1] == out@[at - 1]@);
            let other = key_of(&out[at - 1]);
            if text::comes_before(wanted.as_str(), other.as_str()) {
                at = at - 1;
            } else {
                found = true;
            }
        }
        let ghost held = out@;
        let ghost said = camera@;
        out.insert(at, camera);
        assert(config::views(out@) =~= fewer.insert(at as int, said));
        i = i + 1;
    }
    out
}

/// Cameras are listed by their names without the white space around them, whatever the case of
/// their letters: none stands behind one that its name comes before.
pub proof fn lemma_listed_by_name(cameras: Seq<CameraView>, n: int, i: int, j: int)
    requires
        0 <= n <= cameras.len(),
        0 <= i < j < n,
    ensures
        ({
            let all = listed(cameras, n);
            !text::precedes(
                text::lowercase(text::trimmed(all[j].name)),
                text::lowercase(text::trimmed(all[i].name)),
            )
        }),
{
    lemma_listed(cameras, n);
    let all = listed(cameras, n);
    assert(!before(all[j], all[i]));
}

/// The cameras whose name, as it is listed by, is this one.
pub open spec fn named(cameras: Seq<CameraView>, name: Seq<char>) -> Seq<CameraView> {
    cameras.filter(|c: CameraView| text::lowercase(text::trimmed(c.name)) == name)
}

/// Cameras whose names do not tell which comes first stay in the order that they had.
pub proof fn lemma_equal_names_keep_their_order(
    cameras: Seq<CameraView>,
    n: int,
    name: Seq<char>,
)
    requires
        0 <= n <= cameras.len(),
    ensures
        named(listed(cameras, n), name) == named(cameras.take(n), name),
    decreases n,
{
    let pred = |c: CameraView| text::lowercase(text::trimmed(c.name)) == name;
    if n > 0 {
        lemma_equal_names_keep_their_order(cameras, n - 1, name);
        let fewer = listed(cameras, n - 1);
        let camera = cameras[n - 1];
        let at = place(fewer, camera, fewer.len() as int);
        lemma_place(fewer, camera, fewer.len() as int);
        let (left, right) = (fewer.take(at), fewer.skip(at));
        assert(fewer =~= left + right);
        assert(listed(cameras, n) =~= left.push(camera) + right);
        Seq::filter_distributes_over_add(left, right, pred);
        Seq::filter_distributes_over_add(left.push(camera), right, pred);
        assert(left.push(camera).drop_last() =~= left);
        assert(cameras.take(n).drop_last() =~= cameras.take(n - 1));
        assert(cameras.take(n).last() == camera);
        if pred(camera) {
            assert forall|i: int| 0 <= i < right.len() implies !pred(#[trigger] right[i]) by {
                assert(right[i] == fewer[at + i]);
                assert(before(camera, fewer[at + i]));
                text::lemma_precedes_irreflexive(key(camera));
            }
            lemma_none_named(right, name);
            reveal(Seq::filter);
            assert(right.filter(pred) =~= Seq::<CameraView>::empty());
            assert(left.filter(pred) + right.filter(pred) =~= left.filter(pred));
            assert(left.push(camera).filter(pred) == left.filter(pred).push(camera));
            assert(left.push(camera).filter(pred) + right.filter(pred) =~= left.filter(pred).push(
                camera,
            ));
        } else {
            reveal(Seq::filter);
        }
    } else {
        assert(cameras.take(0) =~= Seq::<CameraView>::empty());
    }
}

proof fn lemma_none_named(cameras: Seq<CameraView>, name: Seq<char>)
    requires
        forall|i: int|
            0 <= i < cameras.len() ==> text::lowercase(text::trimmed((#[trigger] cameras[i]).name))
                != name,
    ensures
        named(cameras, name).len() == 0,
    decreases cameras.len(),
{
    reveal(Seq::filter);
    if cameras.len() > 0 {
        let fewer = cameras.drop_last();
        assert forall|i: int| 0 <= i < fewer.len() implies text::lowercase(
            text::trimmed((#[trigger] fewer[i]).name),
        ) != name by {
            assert(fewer[i] == cameras[i]);
        }
        lemma_none_named(fewer, name);
        assert(cameras[cameras.len() - 1] == cameras.last());
    }
}

}
