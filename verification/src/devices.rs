//! Choosing audio devices by their names, and reading the number that a
//! user typed to pick one. A name that the host could not report is taken
//! as the empty name.
use crate::text::{lemma_trim_idempotent, chars_of, contains_chars, contains_seq, parse_unsigned, parse_unsigned_chars, str_contains, trim, trimmed_chars};
use vstd::prelude::*;

verus! {

/// What `str::to_lowercase` makes of a string: its Unicode lowercase form as
/// std's tables define it, where a character may become several and a final
/// sigma depends on its neighbours.
pub uninterp spec fn lowercase_of(s: Seq<char>) -> Seq<char>;

/// Calls `str::to_lowercase`. Its result is named `lowercase_of` of the
/// argument's characters; nothing more is claimed of it.
#[verifier::external_body]
fn to_lowercase(s: &str) -> (r: String)
    ensures
        r@ == lowercase_of(s@),
{
    s.to_lowercase()
}

/// The name a device reports, or the empty name where it reported none.
pub open spec fn name_or_empty(name: Option<String>) -> Seq<char> {
    match name {
        Some(s) => s@,
        None => Seq::<char>::empty(),
    }
}

/// Whether a lowercased device name marks a capture device that records
/// the playback mix.
pub open spec fn is_loopback_name(lower: Seq<char>) -> bool {
    ||| contains_seq(lower, "monitor"@)
    ||| contains_seq(lower, "loopback"@)
    ||| contains_seq(lower, "stereo mix"@)
    ||| contains_seq(lower, "\u{C2A4}\u{D14C}\u{B808}\u{C624} \u{BBF9}\u{C2A4}"@)
}

/// Whether the input device with this reported name is taken for the
/// loopback capture. A device without a name is not.
pub open spec fn is_loopback_candidate(name: Option<String>) -> bool {
    match name {
        Some(s) => is_loopback_name(lowercase_of(s@)),
        None => false,
    }
}

/// Whether the already lowercased text `lower` holds one of the loopback
/// markers `monitor`, `loopback`, `stereo mix` or its Korean form.
pub fn is_loopback_text(lower: &str) -> (r: bool)
    ensures
        r == is_loopback_name(lower@),
{
    let l = chars_of(lower);
    let k1 = chars_of("monitor");
    let k2 = chars_of("loopback");
    let k3 = chars_of("stereo mix");
    let k4 = chars_of("\u{C2A4}\u{D14C}\u{B808}\u{C624} \u{BBF9}\u{C2A4}");
    contains_chars(&l, &k1) || contains_chars(&l, &k2) || contains_chars(&l, &k3)
        || contains_chars(&l, &k4)
}

/// Whether the device name, lowercased, holds one of the loopback markers.
pub fn is_loopback_device_name(name: &str) -> (r: bool)
    ensures
        r == is_loopback_name(lowercase_of(name@)),
{
    let lower = to_lowercase(name);
    is_loopback_text(lower.as_str())
}

/// The position of the first input device whose name marks it as a
/// loopback capture device, or `None` where no name does.
pub fn find_loopback_input(names: &Vec<Option<String>>) -> (r: Option<usize>)
    ensures
        match r {
            Some(i) => {
                &&& i < names@.len()
                &&& is_loopback_candidate(names@[i as int])
                &&& forall|j: int| 0 <= j < i ==> !is_loopback_candidate(#[trigger] names@[j])
            },
            None => forall|j: int|
                0 <= j < names@.len() ==> !is_loopback_candidate(#[trigger] names@[j]),
        },
{
    let n: usize = names.len();
    let mut i: usize = 0;
    while i < n
        invariant
            n == names@.len(),
            i <= n,
            forall|j: int| 0 <= j < i ==> !is_loopback_candidate(#[trigger] names@[j]),
        decreases n - i,
    {
        let hit = match &names[i] {
            Some(s) => is_loopback_device_name(s.as_str()),
            None => false,
        };
        if hit {
            return Some(i);
        }
        i = i + 1;
    }
    None
}

/// Whether the device is the virtual cable's capture end, whose name holds
/// `CABLE Output`.
pub open spec fn is_cable_output(name: Option<String>) -> bool {
    contains_seq(name_or_empty(name), "CABLE Output"@)
}

/// Whether the output device can take the equalised sound: its name does
/// not hold `CABLE`, so it is not the virtual cable itself.
pub open spec fn is_speaker(name: Option<String>) -> bool {
    !contains_seq(name_or_empty(name), "CABLE"@)
}

/// Whether the device reports a name that holds `needle`.
fn name_contains(name: &Option<String>, needle: &str) -> (r: bool)
    ensures
        r == contains_seq(name_or_empty(*name), needle@),
{
    match name {
        Some(s) => str_contains(s.as_str(), needle),
        None => {
            let empty: Vec<char> = Vec::new();
            let k = chars_of(needle);
            let r = contains_chars(&empty, &k);
            assert(empty@ =~= Seq::<char>::empty());
            r
        },
    }
}

/// The position of the first input device whose name holds
/// `CABLE Output`, or `None` where no name does.
pub fn find_cable_input(names: &Vec<Option<String>>) -> (r: Option<usize>)
    ensures
        match r {
            Some(i) => {
                &&& i < names@.len()
                &&& is_cable_output(names@[i as int])
                &&& forall|j: int| 0 <= j < i ==> !is_cable_output(#[trigger] names@[j])
            },
            None => forall|j: int| 0 <= j < names@.len() ==> !is_cable_output(#[trigger] names@[j]),
        },
{
    let n: usize = names.len();
    let mut i: usize = 0;
    while i < n
        invariant
            n == names@.len(),
            i <= n,
            forall|j: int| 0 <= j < i ==> !is_cable_output(#[trigger] names@[j]),
        decreases n - i,
    {
        if name_contains(&names[i], "CABLE Output") {
            return Some(i);
        }
        i = i + 1;
    }
    None
}

/// The positions of the output devices that can take the equalised sound,
/// in the order the host lists them: every position whose name does not
/// hold `CABLE`, and no other.
pub fn speaker_indices(names: &Vec<Option<String>>) -> (r: Vec<usize>)
    ensures
        forall|k: int| 0 <= k < r@.len() ==> #[trigger] r@[k] < names@.len(),
        forall|k: int| 0 <= k < r@.len() ==> is_speaker(names@[#[trigger] r@[k] as int]),
        forall|k: int, l: int| 0 <= k < l < r@.len() ==> #[trigger] r@[k] < #[trigger] r@[l],
        forall|j: int| 0 <= j < names@.len() && is_speaker(#[trigger] names@[j]) ==> r@.contains(
            j as usize,
        ),
{
    let n: usize = names.len();
    let mut r: Vec<usize> = Vec::new();
    let mut i: usize = 0;
    while i < n
        invariant
            n == names@.len(),
            i <= n,
            forall|k: int| 0 <= k < r@.len() ==> #[trigger] r@[k] < i,
            forall|k: int| 0 <= k < r@.len() ==> is_speaker(names@[#[trigger] r@[k] as int]),
            forall|k: int, l: int| 0 <= k < l < r@.len() ==> #[trigger] r@[k] < #[trigger] r@[l],
            forall|j: int| 0 <= j < i && is_speaker(#[trigger] names@[j]) ==> r@.contains(
                j as usize,
            ),
        decreases n - i,
    {
        if !name_contains(&names[i], "CABLE") {
            let ghost before = r@;
            r.push(i);
            proof {
                assert forall|j: int| 0 <= j < i + 1 && is_speaker(#[trigger] names@[j]) implies r@.contains(
                    j as usize,
                ) by {
                    if j < i {
                        let k = choose|k: int| 0 <= k < before.len() && before[k] == j as usize;
                        assert(r@[k] == j as usize);
                    } else {
                        assert(r@[before.len() as int] == j as usize);
                    }
                }
            }
        }
        i = i + 1;
    }
    r
}

/// The device that a typed choice picks among `count` listed devices, which
/// the list shows numbered from 1: the position of the device numbered by
/// the trimmed input, or `None` where the input is no such number.
pub open spec fn device_choice(input: Seq<char>, count: nat) -> Option<nat> {
    match parse_unsigned(trim(input), usize::MAX as nat) {
        Some(c) => if 1 <= c <= count {
            Some((c - 1) as nat)
        } else {
            None
        },
        None => None,
    }
}

/// Reads the typed choice of a device among `count` listed devices.
pub fn parse_device_choice(input: &str, count: usize) -> (r: Option<usize>)
    ensures
        match device_choice(input@, count as nat) {
            Some(i) => r == Some(i as usize),
            None => r is None,
        },
{
    let t = trimmed_chars(input);
    match parse_unsigned_chars(&t, usize::MAX as u64) {
        Some(c) => {
            if c >= 1 && c <= count as u64 {
                Some((c - 1) as usize)
            } else {
                None
            }
        },
        None => None,
    }
}

/// A typed device number picks the same device with or without whitespace
/// around it, and only ever one of the listed devices.
pub proof fn lemma_device_choice_in_range(input: Seq<char>, count: nat)
    ensures
        device_choice(trim(input), count) == device_choice(input, count),
        device_choice(input, count) matches Some(i) ==> i < count,
{
    lemma_trim_idempotent(input);
}

/// An input device is taken for the loopback capture exactly when it
/// reports a name whose lowercase form holds one of the four markers
/// `monitor`, `loopback`, `stereo mix` and its Korean form; a name with none
/// of them, or no name at all, is never taken.
pub proof fn lemma_loopback_candidate_markers(name: Option<String>)
    ensures
        name is None ==> !is_loopback_candidate(name),
        name matches Some(s) ==> (is_loopback_candidate(name) <==> {
            let lower = lowercase_of(s@);
            ||| contains_seq(lower, "monitor"@)
            ||| contains_seq(lower, "loopback"@)
            ||| contains_seq(lower, "stereo mix"@)
            ||| contains_seq(lower, "\u{C2A4}\u{D14C}\u{B808}\u{C624} \u{BBF9}\u{C2A4}"@)
        }),
{
}

/// Lowercased text is a loopback name exactly when it holds one of the four
/// markers, and text that holds none of them is not.
pub proof fn lemma_loopback_name_markers(lower: Seq<char>)
    ensures
        is_loopback_name(lower) <==> (contains_seq(lower, "monitor"@) || contains_seq(
            lower,
            "loopback"@,
        ) || contains_seq(lower, "stereo mix"@) || contains_seq(
            lower,
            "\u{C2A4}\u{D14C}\u{B808}\u{C624} \u{BBF9}\u{C2A4}"@,
        )),
{
}

/// An output device can take the equalised sound exactly when its reported
/// name does not hold `CABLE`; a device without a name always can.
pub proof fn lemma_speaker_names(name: Option<String>)
    ensures
        name is None ==> is_speaker(name),
        name matches Some(s) ==> (is_speaker(name) <==> !contains_seq(s@, "CABLE"@)),
{
    if name is None {
        assert(!contains_seq(Seq::<char>::empty(), "CABLE"@)) by {
            reveal_strlit("CABLE");
        }
    }
}

/// An input device is the cable's capture end exactly when its reported
/// name holds `CABLE Output`; a device without a name never is.
pub proof fn lemma_cable_output_names(name: Option<String>)
    ensures
        name is None ==> !is_cable_output(name),
        name matches Some(s) ==> (is_cable_output(name) <==> contains_seq(s@, "CABLE Output"@)),
{
    if name is None {
        assert(!contains_seq(Seq::<char>::empty(), "CABLE Output"@)) by {
            reveal_strlit("CABLE Output");
        }
    }
}

} // verus!
