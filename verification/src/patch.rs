//! Taking the finalizer off a service.
use crate::error::Error;
use crate::service::{Service, HOMELAB_DNS_FINALIZER};
use crate::text::{
    decimal, decimal_string, lemma_decimal_digits, lemma_decimal_injective, same_text, texts,
};
use json_patch::{Patch, PatchOperation, RemoveOperation, TestOperation};
use vstd::prelude::*;
use vstd::string::StringExecFns;

verus! {

/// A list of operations on a JSON document.
#[verifier::external_type_specification]
#[verifier::external_body]
pub struct ExPatch(Patch);

/// What the list of operations is made of.
#[verifier::external_type_specification]
#[verifier::external_body]
pub struct ExPatchOperation(PatchOperation);

/// One operation of a patch.
#[verifier::ext_equal]
pub enum PatchStep {
    /// Fail unless the value at `path` is the string `value`.
    Test { path: Seq<char>, value: Seq<char> },
    /// Remove what is at `path`.
    Remove { path: Seq<char> },
}

/// The operations of a patch, the first to be carried out first.
pub uninterp spec fn patch_steps(patch: Patch) -> Seq<PatchStep>;

/// Whether `text` leads to a place in a JSON document: it starts with a slash and escapes nothing.
pub open spec fn is_simple_pointer(text: Seq<char>) -> bool {
    &&& text.len() >= 1
    &&& text[0] == '/'
    &&& !text.contains('~')
}

/// `Patch` without operations.
#[verifier::external_body]
fn empty_patch() -> (patch: Patch)
    ensures
        patch_steps(patch) == Seq::<PatchStep>::empty(),
{
    Patch(Vec::new())
}

/// A `TestOperation` for a string value at the end of the `Patch`; `Pointer::try_from` takes every
/// text that starts with a slash and has no tilde, and keeps it as it is.
#[verifier::external_body]
fn push_test(patch: &mut Patch, path: &str, value: &str)
    requires
        is_simple_pointer(path@),
    ensures
        patch_steps(*final(patch)) == patch_steps(*old(patch)).push(
            PatchStep::Test { path: path@, value: value@ },
        ),
{
    let path = path.try_into().unwrap();
    patch.0.push(PatchOperation::Test(TestOperation { path, value: value.into() }));
}

/// A `RemoveOperation` at the end of the `Patch`; `Pointer::try_from` takes every text that starts
/// with a slash and has no tilde, and keeps it as it is.
#[verifier::external_body]
fn push_remove(patch: &mut Patch, path: &str)
    requires
        is_simple_pointer(path@),
    ensures
        patch_steps(*final(patch)) == patch_steps(*old(patch)).push(
            PatchStep::Remove { path: path@ },
        ),
{
    let path = path.try_into().unwrap();
    patch.0.push(PatchOperation::Remove(RemoveOperation { path }));
}

impl Service {
    /// The finalizers of the service, in order.
    pub open spec fn finalizers(&self) -> Seq<Seq<char>> {
        match self.metadata.finalizers {
            Some(finalizers) => texts(finalizers@),
            None => Seq::empty(),
        }
    }
}

/// Where `value` first occurs in `list`.
pub open spec fn is_first_index(list: Seq<Seq<char>>, value: Seq<char>, i: int) -> bool {
    &&& 0 <= i < list.len()
    &&& list[i] == value
    &&& forall|k: int| 0 <= k < i ==> list[k] != value
}

/// The path of a finalizer in the JSON form of a service.
pub open spec fn finalizer_path(index: nat) -> Seq<char> {
    "/metadata/finalizers/"@ + decimal(index)
}

/// The operations that take the finalizer at `index` off a service: only if it is this program's.
pub open spec fn finalizer_steps(index: nat) -> Seq<PatchStep> {
    seq![
        PatchStep::Test { path: finalizer_path(index), value: HOMELAB_DNS_FINALIZER@ },
        PatchStep::Remove { path: finalizer_path(index) },
    ]
}

/// A patch for a service.
#[derive(Debug)]
pub struct FinalizerPatch {
    /// The name of the service.
    pub name: String,
    pub patch: Patch,
}

/// Where the service lists this program's finalizer first.
pub fn finalizer_index(srv: &Service) -> (r: Option<usize>)
    ensures
        match r {
            Some(i) => is_first_index(srv.finalizers(), HOMELAB_DNS_FINALIZER@, i as int),
            None => !srv.finalizers().contains(HOMELAB_DNS_FINALIZER@),
        },
{
    match &srv.metadata.finalizers {
        Some(finalizers) => {
            for i in 0..finalizers.len()
                invariant
                    srv.metadata.finalizers == Some(*finalizers),
                    forall|k: int|
                        0 <= k < i ==> (#[trigger] srv.finalizers()[k]) != HOMELAB_DNS_FINALIZER@,
            {
                if same_text(&finalizers[i], HOMELAB_DNS_FINALIZER) {
                    return Some(i);
                }
            }
            None
        },
        None => None,
    }
}

/// The patch that takes the finalizer at `index` off a service.
pub fn remove_finalizer_at(index: usize) -> (patch: Patch)
    ensures
        patch_steps(patch) == finalizer_steps(index as nat),
{
    let mut path = "/metadata/finalizers/".to_owned();
    path.append(decimal_string(index).as_str());
    proof {
        reveal_strlit("/metadata/finalizers/");
        lemma_decimal_digits(index as nat);
        assert(is_simple_pointer(path@));
    }
    let mut patch = empty_patch();
    push_test(&mut patch, path.as_str(), HOMELAB_DNS_FINALIZER);
    push_remove(&mut patch, path.as_str());
    patch
}

/// What taking this program's finalizer off the service comes to: nothing if the service does not
/// have it, an error if it has no name, and otherwise the patch for its first occurrence.
pub open spec fn is_finalizer_removal(
    srv: &Service,
    removal: Result<Option<FinalizerPatch>, Error>,
) -> bool {
    let listed = srv.finalizers().contains(HOMELAB_DNS_FINALIZER@);
    &&& !listed ==> removal is Ok && removal->Ok_0 is None
    &&& listed && srv.metadata.name is None ==> removal is Err
        && removal->Err_0 is FinalizerUnnamedObject
    &&& listed && srv.metadata.name is Some ==> {
        &&& removal matches Ok(Some(patch))
        &&& patch.name@ == srv.metadata.name->0@
        &&& exists|i: int| #[trigger]
            is_first_index(srv.finalizers(), HOMELAB_DNS_FINALIZER@, i) && patch_steps(patch.patch)
                == finalizer_steps(i as nat)
    }
}

/// What has to be patched to take this program's finalizer off the service.
pub fn remove_finalizer(srv: &Service) -> (r: Result<Option<FinalizerPatch>, Error>)
    ensures
        is_finalizer_removal(srv, r),
{
    match finalizer_index(srv) {
        Some(index) => match &srv.metadata.name {
            Some(name) => Ok(
                Some(FinalizerPatch { name: name.clone(), patch: remove_finalizer_at(index) }),
            ),
            None => Err(Error::FinalizerUnnamedObject),
        },
        None => Ok(None),
    }
}

/// Whether `path` leads to the element at `i` in a list of finalizers.
pub open spec fn leads_to(path: Seq<char>, finalizers: Seq<Seq<char>>, i: int) -> bool {
    0 <= i < finalizers.len() && path == finalizer_path(i as nat)
}

/// Where `path` leads in a list of finalizers, if anywhere.
pub open spec fn place_of(path: Seq<char>, finalizers: Seq<Seq<char>>) -> Option<int> {
    if exists|i: int| leads_to(path, finalizers, i) {
        Some(choose|i: int| leads_to(path, finalizers, i))
    } else {
        None
    }
}

/// The finalizers of a service after one operation, or nothing where it fails.
pub open spec fn run_step(finalizers: Seq<Seq<char>>, step: PatchStep) -> Option<Seq<Seq<char>>> {
    match step {
        PatchStep::Test { path, value } => match place_of(path, finalizers) {
            Some(i) if finalizers[i] == value => Some(finalizers),
            _ => None,
        },
        PatchStep::Remove { path } => match place_of(path, finalizers) {
            Some(i) => Some(finalizers.remove(i)),
            None => None,
        },
    }
}

/// The finalizers of a service after the operations, or nothing where one of them fails.
pub open spec fn run_patch(finalizers: Seq<Seq<char>>, steps: Seq<PatchStep>) -> Option<
    Seq<Seq<char>>,
>
    decreases steps.len(),
{
    if steps.len() == 0 {
        Some(finalizers)
    } else {
        match run_patch(finalizers, steps.drop_last()) {
            Some(before) => run_step(before, steps.last()),
            None => None,
        }
    }
}

/// Different finalizers have different paths.
proof fn lemma_finalizer_path_injective(i: nat, j: nat)
    requires
        finalizer_path(i) == finalizer_path(j),
    ensures
        i == j,
{
    let front = "/metadata/finalizers/"@;
    assert(decimal(i) == finalizer_path(i).skip(front.len() as int));
    assert(decimal(j) == finalizer_path(j).skip(front.len() as int));
    lemma_decimal_injective(i, j);
}

/// Whatever finalizers a service has by the time the patch arrives, the patch never removes anyone
/// else's: it fails unless this program's is still where it was, and then removes just that one.
pub proof fn law_patch_removes_own_finalizer(finalizers: Seq<Seq<char>>, index: nat)
    ensures
        run_patch(finalizers, finalizer_steps(index)) == if index < finalizers.len()
            && finalizers[index as int] == HOMELAB_DNS_FINALIZER@ {
            Some(finalizers.remove(index as int))
        } else {
            None
        },
{
    let steps = finalizer_steps(index);
    let path = finalizer_path(index);
    assert(steps.drop_last() == seq![steps[0]]);
    assert(steps.drop_last().drop_last() == Seq::<PatchStep>::empty());
    assert(run_patch(finalizers, steps.drop_last().drop_last()) == Some(finalizers));
    assert(run_patch(finalizers, steps.drop_last()) == run_step(finalizers, steps[0]));
    assert(place_of(path, finalizers) == if index < finalizers.len() {
        Some(index as int)
    } else {
        None
    }) by {
        if index < finalizers.len() {
            assert(leads_to(path, finalizers, index as int));
        }
        if exists|i: int| leads_to(path, finalizers, i) {
            lemma_finalizer_path_injective(place_of(path, finalizers)->0 as nat, index);
        }
    }
}

/// Whether the operations test that this program's finalizer is at `i`, where it first stands, then
/// remove what is there, and so take the finalizers to those without that one.
pub open spec fn takes_own_off(list: Seq<Seq<char>>, steps: Seq<PatchStep>, i: int) -> bool {
    let path = "/metadata/finalizers/"@ + decimal(i as nat);
    &&& 0 <= i < list.len()
    &&& list[i] == HOMELAB_DNS_FINALIZER@
    &&& !list.take(i).contains(HOMELAB_DNS_FINALIZER@)
    &&& steps.len() == 2
    &&& steps[0] == (PatchStep::Test { path, value: HOMELAB_DNS_FINALIZER@ })
    &&& steps[1] == (PatchStep::Remove { path })
    &&& run_patch(list, steps) == Some(list.remove(i))
}

/// Taking the finalizer off a service comes to nothing where the service does not list it, and to an
/// error where it lists it but has no name. In every other case a patch for the service of that name
/// comes out, wherever the finalizer stands, which takes its first occurrence off the list.
pub proof fn law_listed_finalizer_is_patched_off(
    srv: &Service,
    removal: Result<Option<FinalizerPatch>, Error>,
)
    requires
        is_finalizer_removal(srv, removal),
    ensures
        ({
            let listed = srv.finalizers().contains(HOMELAB_DNS_FINALIZER@);
            &&& !listed ==> removal is Ok && removal->Ok_0 is None
            &&& listed && srv.metadata.name is None ==> removal is Err
                && removal->Err_0 is FinalizerUnnamedObject
            &&& listed && srv.metadata.name is Some ==> {
                &&& removal is Ok
                &&& removal->Ok_0 is Some
                &&& removal->Ok_0->0.name@ == srv.metadata.name->0@
                &&& exists|i: int| #[trigger]
                    takes_own_off(srv.finalizers(), patch_steps(removal->Ok_0->0.patch), i)
            }
        }),
{
    let own = HOMELAB_DNS_FINALIZER@;
    let list = srv.finalizers();
    if list.contains(own) && srv.metadata.name is Some {
        let patch = removal->Ok_0->0;
        let i = choose|i: int| #[trigger]
            is_first_index(list, own, i) && patch_steps(patch.patch) == finalizer_steps(i as nat);
        law_patch_removes_own_finalizer(list, i as nat);
        law_first_index_is_first(list, own, i);
        assert(takes_own_off(list, patch_steps(patch.patch), i));
    }
}

/// The first place of a value in a list is where it stands and stands nowhere before.
pub proof fn law_first_index_is_first(list: Seq<Seq<char>>, value: Seq<char>, i: int)
    ensures
        is_first_index(list, value, i) <==> {
            &&& 0 <= i < list.len()
            &&& list[i] == value
            &&& !list.take(i).contains(value)
        },
{
    if 0 <= i < list.len() {
        let front = list.take(i);
        if is_first_index(list, value, i) && front.contains(value) {
            let k = choose|k: int| 0 <= k < front.len() && front[k] == value;
            assert(list[k] == value);
        }
        if !front.contains(value) {
            assert forall|k: int| 0 <= k < i implies list[k] != value by {
                assert(front[k] == list[k]);
            }
        }
    }
}

/// The finalizers of a service are the texts that its metadata lists, in order.
pub proof fn law_finalizers_come_from_metadata(srv: &Service)
    ensures
        srv.metadata.finalizers is None ==> srv.finalizers().len() == 0,
        srv.metadata.finalizers is Some ==> srv.finalizers() == texts(srv.metadata.finalizers->0@),
{
}

/// Whatever the index, the patch first tests that this program's finalizer is there, and then removes
/// what is at the same place.
pub proof fn law_patch_tests_before_it_removes(index: nat)
    ensures
        finalizer_steps(index).len() == 2,
        finalizer_steps(index)[0] == (PatchStep::Test {
            path: "/metadata/finalizers/"@ + decimal(index),
            value: "homelab-dns.k8s.r0ssd.co/cleanup"@,
        }),
        finalizer_steps(index)[1] == (PatchStep::Remove {
            path: "/metadata/finalizers/"@ + decimal(index),
        }),
{
}

} // verus!
