//! The system tray: its menu of input devices, its icon, and the restart with another device.
use vstd::prelude::*;

use crate::text::{has_prefix, join, starts_with};

verus! {

/// The contents of a list of texts.
pub open spec fn text_views(texts: Seq<String>) -> Seq<Seq<char>> {
    texts.map_values(|t: String| t@)
}

/// The arguments without any choice of an input device: without `--device` and what follows it,
/// and without `--device=` with its value.
pub open spec fn without_device(args: Seq<Seq<char>>) -> Seq<Seq<char>>
    decreases args.len(),
{
    if args.len() == 0 {
        seq![]
    } else if args[0] == "--device"@ {
        if args.len() == 1 {
            seq![]
        } else {
            without_device(args.skip(2))
        }
    } else if has_prefix(args[0], "--device="@) {
        without_device(args.skip(1))
    } else {
        seq![args[0]] + without_device(args.skip(1))
    }
}

/// The arguments with the given input device as the only choice.
pub open spec fn with_device(args: Seq<Seq<char>>, device_name: Seq<char>) -> Seq<Seq<char>> {
    without_device(args) + seq!["--device"@, device_name]
}

/// The arguments to restart the program with, so that it uses another input device. `args` are the
/// present ones.
pub fn restart_args(args: &Vec<String>, device_name: &str) -> (r: Vec<String>)
    ensures
        text_views(r@) == with_device(text_views(args@), device_name@),
{
    let ghost all = text_views(args@);
    let flag = "--device".to_string();
    let n: usize = args.len();
    let mut r: Vec<String> = Vec::new();
    let mut i: usize = 0;
    assert(text_views(r@) + without_device(all.skip(0)) =~= without_device(all)) by {
        assert(all.skip(0) =~= all);
    }
    while i < n
        invariant
            n == args@.len(),
            i <= n,
            all == text_views(args@),
            flag@ == "--device"@,
            text_views(r@) + without_device(all.skip(i as int)) == without_device(all),
        decreases n - i,
    {
        let ghost rest = all.skip(i as int);
        assert(rest[0] == args@[i as int]@);
        assert(rest.skip(1) =~= all.skip(i + 1));
        if args[i] == flag {
            if i + 1 < n {
                assert(rest.skip(2) =~= all.skip(i + 2));
                i += 2;
            } else {
                assert(all.skip(n as int) =~= seq![]);
                i += 1;
            }
        } else if starts_with(args[i].as_str(), "--device=") {
            i += 1;
        } else {
            let ghost before = text_views(r@);
            r.push(args[i].clone());
            assert(text_views(r@) =~= before.push(rest[0]));
            assert(text_views(r@) + without_device(rest.skip(1)) =~= before + (seq![rest[0]]
                + without_device(rest.skip(1))));
            i += 1;
        }
    }
    assert(all.skip(n as int) =~= seq![]);
    assert(text_views(r@) =~= without_device(all));
    let ghost kept = text_views(r@);
    r.push(flag);
    r.push(device_name.to_string());
    assert(text_views(r@) =~= kept + seq!["--device"@, device_name@]);
    r
}

/// Whether no argument chooses an input device.
pub open spec fn names_no_device(args: Seq<Seq<char>>) -> bool {
    forall|i: int|
        0 <= i < args.len() ==> #[trigger] args[i] != "--device"@ && !has_prefix(
            args[i],
            "--device="@,
        )
}

/// What is left of the arguments chooses no input device.
pub proof fn no_device_is_left(args: Seq<Seq<char>>)
    ensures
        names_no_device(without_device(args)),
    decreases args.len(),
{
    if args.len() > 0 {
        if args[0] == "--device"@ {
            if args.len() > 1 {
                no_device_is_left(args.skip(2));
            }
        } else {
            no_device_is_left(args.skip(1));
            let rest = without_device(args.skip(1));
            if !has_prefix(args[0], "--device="@) {
                assert forall|i: int| 0 <= i < without_device(args).len() implies #[trigger] without_device(
                    args,
                )[i] != "--device"@ && !has_prefix(without_device(args)[i], "--device="@) by {
                    if i > 0 {
                        assert(without_device(args)[i] == rest[i - 1]);
                    }
                }
            }
        }
    }
}

/// Arguments that choose no input device are all kept, in order.
pub proof fn other_arguments_are_kept(args: Seq<Seq<char>>, more: Seq<Seq<char>>)
    requires
        names_no_device(args),
    ensures
        without_device(args + more) == args + without_device(more),
    decreases args.len(),
{
    if args.len() > 0 {
        let rest = args.skip(1);
        assert(names_no_device(rest)) by {
            assert forall|i: int| 0 <= i < rest.len() implies #[trigger] rest[i] != "--device"@
                && !has_prefix(rest[i], "--device="@) by {
                assert(rest[i] == args[i + 1]);
            }
        }
        other_arguments_are_kept(rest, more);
        assert((args + more)[0] == args[0]);
        assert((args + more).skip(1) =~= rest + more);
        assert(seq![args[0]] + (rest + without_device(more)) =~= args + without_device(more));
    } else {
        assert(args + more =~= more);
        assert(args + without_device(more) =~= without_device(more));
    }
}

/// Restarting again with another device leaves no trace of the one before.
pub proof fn last_restart_wins(args: Seq<Seq<char>>, first: Seq<char>, second: Seq<char>)
    ensures
        with_device(with_device(args, first), second) == with_device(args, second),
{
    let kept = without_device(args);
    let choice = seq!["--device"@, first];
    no_device_is_left(args);
    other_arguments_are_kept(kept, choice);
    assert(choice.skip(2) =~= seq![]);
    assert(choice[0] == "--device"@);
    assert(without_device(choice.skip(2)) =~= seq![]);
    assert(without_device(choice) =~= seq![]);
    assert(kept + without_device(choice) =~= kept);
}

/// Whether a device is the one in use: the chosen one, or the default one where none is chosen.
pub open spec fn is_active(name: Seq<char>, is_default: bool, current: Option<String>) -> bool {
    match current {
        Some(selected) => selected@ == name,
        None => is_default,
    }
}

/// The label of a device in the menu.
pub open spec fn label(name: Seq<char>, is_default: bool, current: Option<String>) -> Seq<char> {
    if is_active(name, is_default, current) {
        "* "@ + name
    } else if is_default {
        "  "@ + name + " (default)"@
    } else {
        "  "@ + name
    }
}

/// The label of a device in the menu: the one in use is marked.
pub fn device_label(name: &String, is_default: bool, current: &Option<String>) -> (r: String)
    ensures
        r@ == label(name@, is_default, *current),
{
    let active = match current {
        Some(selected) => *selected == *name,
        None => is_default,
    };
    if active {
        join("* ", name.as_str())
    } else if is_default {
        let mut r = join("  ", name.as_str());
        r.append(" (default)");
        r
    } else {
        join("  ", name.as_str())
    }
}

/// The labels of all devices, in order.
pub fn device_labels(devices: &Vec<(String, bool)>, current: &Option<String>) -> (r: Vec<String>)
    ensures
        r@.len() == devices@.len(),
        forall|i: int|
            0 <= i < r@.len() ==> (#[trigger] r@[i])@ == label(
                devices@[i].0@,
                devices@[i].1,
                *current,
            ),
{
    let n: usize = devices.len();
    let mut r: Vec<String> = Vec::new();
    let mut i: usize = 0;
    while i < n
        invariant
            n == devices@.len(),
            i <= n,
            r@.len() == i,
            forall|j: int|
                0 <= j < i ==> (#[trigger] r@[j])@ == label(
                    devices@[j].0@,
                    devices@[j].1,
                    *current,
                ),
        decreases n - i,
    {
        r.push(device_label(&devices[i].0, devices[i].1, current));
        i += 1;
    }
    r
}

/// What to do about a click in the menu.
#[derive(Debug)]
pub enum TrayAction {
    /// End the program.
    Quit,
    /// Restart with the device at each of these places, in turn, until it works.
    Restart(Vec<usize>),
}

/// Decides what to do about a click on the item `event`. `quit` is the item that ends the program,
/// and `items` are those of the devices.
pub fn menu_action(event: &String, quit: &String, items: &Vec<String>) -> (r: TrayAction)
    ensures
        match r {
            TrayAction::Quit => event@ == quit@,
            TrayAction::Restart(places) => {
                &&& event@ != quit@
                &&& forall|k: int|
                    0 <= k < places@.len() ==> (#[trigger] places@[k]) < items@.len()
                        && items@[places@[k] as int]@ == event@
                &&& forall|k: int, l: int| 0 <= k < l < places@.len() ==> places@[k] < places@[l]
                &&& forall|j: int|
                    0 <= j < items@.len() && (#[trigger] items@[j])@ == event@
                        ==> places@.contains(j as usize)
            },
        },
{
    if *event == *quit {
        return TrayAction::Quit;
    }
    let n: usize = items.len();
    let mut places: Vec<usize> = Vec::new();
    let mut i: usize = 0;
    while i < n
        invariant
            n == items@.len(),
            i <= n,
            forall|k: int|
                0 <= k < places@.len() ==> (#[trigger] places@[k]) < i
                    && items@[places@[k] as int]@ == event@,
            forall|k: int, l: int| 0 <= k < l < places@.len() ==> places@[k] < places@[l],
            forall|j: int|
                0 <= j < i && (#[trigger] items@[j])@ == event@ ==> places@.contains(j as usize),
        decreases n - i,
    {
        if items[i] == *event {
            let ghost before = places@;
            places.push(i);
            assert(places@[before.len() as int] == i);
            assert forall|j: int| 0 <= j <= i && (#[trigger] items@[j])@ == event@ implies places@.contains(
                j as usize,
            ) by {
                if j < i {
                    let k = choose|k: int| 0 <= k < before.len() && before[k] == j as usize;
                    assert(before.contains(j as usize));
                    assert(places@[k] == j as usize);
                }
            }
        }
        i += 1;
    }
    TrayAction::Restart(places)
}

/// The width and height of the icon in pixels.
pub const ICON_SIZE: u32 = 16;

/// Whether a pixel lies in the circle around the centre of the icon that leaves one pixel free on
/// each side.
pub open spec fn in_circle(x: int, y: int) -> bool {
    (x - 8) * (x - 8) + (y - 8) * (y - 8) <= 7 * 7
}

/// The red, green, blue and alpha bytes of a pixel.
pub open spec fn pixel(x: int, y: int) -> Seq<u8> {
    if in_circle(x, y) {
        seq![74u8, 144u8, 217u8, 255u8]
    } else {
        seq![0u8, 0u8, 0u8, 0u8]
    }
}

/// The first `count` pixels of the icon, line by line.
pub open spec fn icon_bytes(count: nat) -> Seq<u8>
    decreases count,
{
    if count == 0 {
        seq![]
    } else {
        icon_bytes((count - 1) as nat) + pixel((count - 1) % 16, (count - 1) / 16)
    }
}

/// Draws the icon, a filled circle, as bytes in the order red, green, blue, alpha.
pub fn create_icon() -> (r: Vec<u8>)
    ensures
        r@ == icon_bytes(256),
{
    let mut r: Vec<u8> = Vec::new();
    let mut i: u32 = 0;
    while i < ICON_SIZE * ICON_SIZE
        invariant
            i <= 256,
            r@ == icon_bytes(i as nat),
        decreases 256 - i,
    {
        let dx: i32 = (i % ICON_SIZE) as i32 - 8;
        let dy: i32 = (i / ICON_SIZE) as i32 - 8;
        assert(0 <= dx * dx <= 64 && 0 <= dy * dy <= 64) by (nonlinear_arith)
            requires
                -8 <= dx <= 7,
                -8 <= dy <= 7,
        ;
        let ghost before = r@;
        if dx * dx + dy * dy <= 49 {
            r.push(74);
            r.push(144);
            r.push(217);
            r.push(255);
        } else {
            r.push(0);
            r.push(0);
            r.push(0);
            r.push(0);
        }
        assert(r@ =~= before + pixel(i as int % 16, i as int / 16));
        i += 1;
    }
    r
}

/// The icon has four bytes for each pixel, and a pixel's bytes stand where a reader of rows looks
/// for them.
pub proof fn icon_is_laid_out_in_rows(count: nat, x: int, y: int)
    requires
        0 <= x < 16,
        0 <= y,
        16 * y + x < count,
    ensures
        icon_bytes(count).len() == 4 * count,
        icon_bytes(count).subrange(4 * (16 * y + x), 4 * (16 * y + x) + 4) == pixel(x, y),
    decreases count,
{
    let k = 16 * y + x;
    lemma_icon_length(count);
    lemma_icon_length((count - 1) as nat);
    let before = icon_bytes((count - 1) as nat);
    if k == count - 1 {
        assert(k % 16 == x && k / 16 == y);
        assert(icon_bytes(count).subrange(4 * k, 4 * k + 4) =~= pixel(x, y));
    } else {
        icon_is_laid_out_in_rows((count - 1) as nat, x, y);
        assert(icon_bytes(count).subrange(4 * k, 4 * k + 4) =~= before.subrange(4 * k, 4 * k + 4));
    }
}

proof fn lemma_icon_length(count: nat)
    ensures
        icon_bytes(count).len() == 4 * count,
    decreases count,
{
    if count > 0 {
        lemma_icon_length((count - 1) as nat);
    }
}

/// A choice of a device is dropped wherever it stands, in either form, with its value and nothing
/// else: what stands before it stays, and what stands behind it is treated as if the choice had not
/// been there.
pub proof fn choice_is_dropped_with_its_value(
    before: Seq<Seq<char>>,
    value: Seq<char>,
    behind: Seq<Seq<char>>,
)
    requires
        forall|i: int|
            0 <= i < before.len() ==> #[trigger] before[i] != "--device"@ && !has_prefix(
                before[i],
                "--device="@,
            ),
    ensures
        without_device(before + seq!["--device"@, value] + behind) == before + without_device(
            behind,
        ),
        without_device(before + seq!["--device="@ + value] + behind) == before + without_device(
            behind,
        ),
        without_device(before + seq!["--device"@]) == before,
        without_device(before) == before,
{
    reveal_strlit("--device");
    reveal_strlit("--device=");
    assert(names_no_device(before));
    let two = seq!["--device"@, value];
    let joined = seq!["--device="@ + value];
    assert(before + two + behind =~= before + (two + behind));
    assert(before + joined + behind =~= before + (joined + behind));
    other_arguments_are_kept(before, two + behind);
    other_arguments_are_kept(before, joined + behind);
    other_arguments_are_kept(before, seq!["--device"@]);
    other_arguments_are_kept(before, seq![]);
    assert((two + behind)[0] == "--device"@);
    assert((two + behind).skip(2) =~= behind);
    let first = (joined + behind)[0];
    assert(first == "--device="@ + value);
    assert(first.take("--device="@.len() as int) =~= "--device="@);
    assert(has_prefix(first, "--device="@));
    assert(first[8] == '=' && first.len() > "--device"@.len());
    assert((joined + behind).skip(1) =~= behind);
    assert(before + seq![] =~= before);
}

/// The new device stands at the end of the arguments, behind all that stays.
pub proof fn new_device_comes_last(args: Seq<Seq<char>>, device_name: Seq<char>)
    ensures
        ({
            let all = with_device(args, device_name);
            &&& all.len() >= 2
            &&& all[all.len() - 2] == "--device"@
            &&& all[all.len() - 1] == device_name
            &&& all.take(all.len() - 2) == without_device(args)
        }),
{
    let all = with_device(args, device_name);
    assert(all.take(all.len() - 2) =~= without_device(args));
}

/// The texts of a list have their places in it.
pub proof fn texts_have_their_place(texts: Seq<String>, i: int)
    requires
        0 <= i < texts.len(),
    ensures
        text_views(texts).len() == texts.len(),
        text_views(texts)[i] == texts[i]@,
{
}

/// A label is a mark of two characters, the name, and for a default device that is not in use the
/// word that says so. The mark is a star exactly for the device in use: the chosen one, or the
/// default one where none is chosen.
pub proof fn label_marks_the_device_in_use(
    name: Seq<char>,
    is_default: bool,
    current: Option<String>,
)
    ensures
        ({
            let text = label(name, is_default, current);
            let in_use = match current {
                Some(chosen) => chosen@ == name,
                None => is_default,
            };
            &&& text.len() >= 2 + name.len()
            &&& text[0] == if in_use {
                '*'
            } else {
                ' '
            }
            &&& text[1] == ' '
            &&& text.subrange(2, 2 + name.len() as int) == name
            &&& text.skip(2 + name.len() as int) == if is_default && !in_use {
                " (default)"@
            } else {
                Seq::empty()
            }
        }),
{
    reveal_strlit("* ");
    reveal_strlit("  ");
    let text = label(name, is_default, current);
    assert(text.subrange(2, 2 + name.len() as int) =~= name);
    if is_default && !is_active(name, is_default, current) {
        assert(text.skip(2 + name.len() as int) =~= " (default)"@);
    } else {
        assert(text.skip(2 + name.len() as int) =~= Seq::empty());
    }
}

/// A pixel is filled, with one colour and without transparency, exactly if it is at most seven
/// pixels from the centre; any other is transparent.
pub proof fn icon_is_a_filled_circle(x: int, y: int)
    ensures
        pixel(x, y).len() == 4,
        pixel(x, y)[3] == 255 <==> (x - 8) * (x - 8) + (y - 8) * (y - 8) <= 49,
        pixel(x, y)[3] == 255 ==> pixel(x, y) == seq![74u8, 144u8, 217u8, 255u8],
        pixel(x, y)[3] != 255 ==> pixel(x, y) == seq![0u8, 0u8, 0u8, 0u8],
{
}

} // verus!
