//! Window configuration and input identifiers.

use vstd::prelude::*;

verus! {

/// Keyboard key codes (a subset of the windowing library's key codes).
#[derive(Debug, Clone, Copy, PartialEq, Eq, Hash, Structural)]
pub enum KeyCode {
    // Letters
    A,
    B,
    C,
    D,
    E,
    F,
    G,
    H,
    I,
    J,
    K,
    L,
    M,
    N,
    O,
    P,
    Q,
    R,
    S,
    T,
    U,
    V,
    W,
    X,
    Y,
    Z,
    // Numbers
    Key0,
    Key1,
    Key2,
    Key3,
    Key4,
    Key5,
    Key6,
    Key7,
    Key8,
    Key9,
    // Function keys
    F1,
    F2,
    F3,
    F4,
    F5,
    F6,
    F7,
    F8,
    F9,
    F10,
    F11,
    F12,
    // Special
    Escape,
    Space,
    Enter,
    Tab,
    Backspace,
    Delete,
    Up,
    Down,
    Left,
    Right,
    LeftShift,
    RightShift,
    LeftControl,
    RightControl,
    LeftAlt,
    RightAlt,
}

/// Mouse buttons.
#[derive(Debug, Clone, Copy, PartialEq, Eq, Hash, Structural)]
pub enum MouseButton {
    Left,
    Right,
    Middle,
}

/// `list` holds `item`.
fn contains_key(list: &Vec<KeyCode>, item: KeyCode) -> (r: bool)
    ensures
        r == list@.contains(item),
{
    let mut k: usize = 0;
    while k < list.len()
        invariant
            k <= list@.len(),
            forall|j: int| 0 <= j < k ==> list@[j] != item,
        decreases list@.len() - k,
    {
        if list[k] == item {
            return true;
        }
        k = k + 1;
    }
    false
}

/// Adds `item` to a list without duplicates; `true` if it was absent.
fn insert_key(list: &mut Vec<KeyCode>, item: KeyCode) -> (r: bool)
    requires
        old(list)@.no_duplicates(),
    ensures
        final(list)@.no_duplicates(),
        r == !old(list)@.contains(item),
        final(list)@.to_set() == old(list)@.to_set().insert(item),
{
    if contains_key(list, item) {
        proof {
            assert(list@.to_set().insert(item) =~= list@.to_set());
        }
        return false;
    }
    let ghost before = list@;
    list.push(item);
    proof {
        assert(list@.to_set() =~= before.to_set().insert(item)) by {
            assert forall|x: KeyCode| #[trigger] list@.contains(x) == (before.contains(x) || x == item) by {
                if list@.contains(x) {
                    let j = choose|j: int| 0 <= j < list@.len() && list@[j] == x;
                    if j < before.len() {
                        assert(before[j] == x);
                    }
                }
                if before.contains(x) {
                    let j = choose|j: int| 0 <= j < before.len() && before[j] == x;
                    assert(list@[j] == x);
                }
                if x == item {
                    assert(list@[before.len() as int] == x);
                }
            }
        }
        assert forall|i: int, j: int| 0 <= i < list@.len() && 0 <= j < list@.len() && i != j implies list@[i] != list@[j] by {
            if i == before.len() as int {
                assert(before.contains(list@[j]));
            } else if j == before.len() as int {
                assert(before.contains(list@[i]));
            }
        }
    }
    true
}

/// Removes `item` from a list without duplicates; `true` if it was
/// present.
fn remove_key(list: &mut Vec<KeyCode>, item: KeyCode) -> (r: bool)
    requires
        old(list)@.no_duplicates(),
    ensures
        final(list)@.no_duplicates(),
        r == old(list)@.contains(item),
        final(list)@.to_set() == old(list)@.to_set().remove(item),
{
    let mut k: usize = 0;
    while k < list.len()
        invariant
            *list == *old(list),
            old(list)@.no_duplicates(),
            k <= list@.len(),
            forall|j: int| 0 <= j < k ==> list@[j] != item,
        decreases list@.len() - k,
    {
        if list[k] == item {
            let ghost before = list@;
            let _ = list.swap_remove(k);
            proof {
                assert forall|x: KeyCode| #[trigger] list@.contains(x) == (before.contains(x) && x != item) by {
                    let last = before.len() - 1;
                    if list@.contains(x) {
                        let j = choose|j: int| 0 <= j < list@.len() && list@[j] == x;
                        if j == k as int && k as int != last {
                            assert(x == before[last]);
                            assert(before[last] != before[k as int]);
                        } else {
                            assert(before[j] == x);
                            assert(j != k as int);
                        }
                    }
                    if before.contains(x) && x != item {
                        let j = choose|j: int| 0 <= j < before.len() && before[j] == x;
                        assert(j != k as int);
                        if j == last {
                            assert(list@[k as int] == x);
                        } else {
                            assert(list@[j] == x);
                        }
                    }
                }
                assert(list@.to_set() =~= before.to_set().remove(item));
                assert forall|i: int, j: int| 0 <= i < list@.len() && 0 <= j < list@.len() && i != j implies list@[i] != list@[j] by {
                    let last = before.len() - 1;
                    let bi = if i == k as int { last } else { i };
                    let bj = if j == k as int { last } else { j };
                    assert(list@[i] == before[bi]);
                    assert(list@[j] == before[bj]);
                }
                assert(before.contains(item)) by {
                    assert(before[k as int] == item);
                }
            }
            return true;
        }
        k = k + 1;
    }
    proof {
        assert(list@.to_set().remove(item) =~= list@.to_set());
    }
    false
}

/// `list` holds `item`.
fn contains_button(list: &Vec<MouseButton>, item: MouseButton) -> (r: bool)
    ensures
        r == list@.contains(item),
{
    let mut k: usize = 0;
    while k < list.len()
        invariant
            k <= list@.len(),
            forall|j: int| 0 <= j < k ==> list@[j] != item,
        decreases list@.len() - k,
    {
        if list[k] == item {
            return true;
        }
        k = k + 1;
    }
    false
}

/// Adds `item` to a list without duplicates; `true` if it was absent.
fn insert_button(list: &mut Vec<MouseButton>, item: MouseButton) -> (r: bool)
    requires
        old(list)@.no_duplicates(),
    ensures
        final(list)@.no_duplicates(),
        r == !old(list)@.contains(item),
        final(list)@.to_set() == old(list)@.to_set().insert(item),
{
    if contains_button(list, item) {
        proof {
            assert(list@.to_set().insert(item) =~= list@.to_set());
        }
        return false;
    }
    let ghost before = list@;
    list.push(item);
    proof {
        assert(list@.to_set() =~= before.to_set().insert(item)) by {
            assert forall|x: MouseButton| #[trigger] list@.contains(x) == (before.contains(x) || x == item) by {
                if list@.contains(x) {
                    let j = choose|j: int| 0 <= j < list@.len() && list@[j] == x;
                    if j < before.len() {
                        assert(before[j] == x);
                    }
                }
                if before.contains(x) {
                    let j = choose|j: int| 0 <= j < before.len() && before[j] == x;
                    assert(list@[j] == x);
                }
                if x == item {
                    assert(list@[before.len() as int] == x);
                }
            }
        }
        assert forall|i: int, j: int| 0 <= i < list@.len() && 0 <= j < list@.len() && i != j implies list@[i] != list@[j] by {
            if i == before.len() as int {
                assert(before.contains(list@[j]));
            } else if j == before.len() as int {
                assert(before.contains(list@[i]));
            }
        }
    }
    true
}

/// Removes `item` from a list without duplicates; `true` if it was
/// present.
fn remove_button(list: &mut Vec<MouseButton>, item: MouseButton) -> (r: bool)
    requires
        old(list)@.no_duplicates(),
    ensures
        final(list)@.no_duplicates(),
        r == old(list)@.contains(item),
        final(list)@.to_set() == old(list)@.to_set().remove(item),
{
    let mut k: usize = 0;
    while k < list.len()
        invariant
            *list == *old(list),
            old(list)@.no_duplicates(),
            k <= list@.len(),
            forall|j: int| 0 <= j < k ==> list@[j] != item,
        decreases list@.len() - k,
    {
        if list[k] == item {
            let ghost before = list@;
            let _ = list.swap_remove(k);
            proof {
                assert forall|x: MouseButton| #[trigger] list@.contains(x) == (before.contains(x) && x != item) by {
                    let last = before.len() - 1;
                    if list@.contains(x) {
                        let j = choose|j: int| 0 <= j < list@.len() && list@[j] == x;
                        if j == k as int && k as int != last {
                            assert(x == before[last]);
                            assert(before[last] != before[k as int]);
                        } else {
                            assert(before[j] == x);
                            assert(j != k as int);
                        }
                    }
                    if before.contains(x) && x != item {
                        let j = choose|j: int| 0 <= j < before.len() && before[j] == x;
                        assert(j != k as int);
                        if j == last {
                            assert(list@[k as int] == x);
                        } else {
                            assert(list@[j] == x);
                        }
                    }
                }
                assert(list@.to_set() =~= before.to_set().remove(item));
                assert forall|i: int, j: int| 0 <= i < list@.len() && 0 <= j < list@.len() && i != j implies list@[i] != list@[j] by {
                    let last = before.len() - 1;
                    let bi = if i == k as int { last } else { i };
                    let bj = if j == k as int { last } else { j };
                    assert(list@[i] == before[bi]);
                    assert(list@[j] == before[bj]);
                }
                assert(before.contains(item)) by {
                    assert(before[k as int] == item);
                }
            }
            return true;
        }
        k = k + 1;
    }
    proof {
        assert(list@.to_set().remove(item) =~= list@.to_set());
    }
    false
}

/// Pressed and released state of the keyboard and mouse buttons, frame by
/// frame. "Just" pressed or released means: during the current frame.
pub struct InputState {
    keys_pressed: Vec<KeyCode>,
    keys_just_pressed: Vec<KeyCode>,
    keys_just_released: Vec<KeyCode>,
    mouse_pressed: Vec<MouseButton>,
    mouse_just_pressed: Vec<MouseButton>,
    mouse_just_released: Vec<MouseButton>,
}

impl InputState {
    /// No list holds a button twice.
    pub closed spec fn wf(&self) -> bool {
        &&& self.keys_pressed@.no_duplicates()
        &&& self.keys_just_pressed@.no_duplicates()
        &&& self.keys_just_released@.no_duplicates()
        &&& self.mouse_pressed@.no_duplicates()
        &&& self.mouse_just_pressed@.no_duplicates()
        &&& self.mouse_just_released@.no_duplicates()
    }

    /// Keys held down.
    pub closed spec fn keys_down(&self) -> Set<KeyCode> {
        self.keys_pressed@.to_set()
    }

    /// Keys pressed during this frame.
    pub closed spec fn keys_pressed_now(&self) -> Set<KeyCode> {
        self.keys_just_pressed@.to_set()
    }

    /// Keys released during this frame.
    pub closed spec fn keys_released_now(&self) -> Set<KeyCode> {
        self.keys_just_released@.to_set()
    }

    /// Mouse buttons held down.
    pub closed spec fn buttons_down(&self) -> Set<MouseButton> {
        self.mouse_pressed@.to_set()
    }

    /// Mouse buttons pressed during this frame.
    pub closed spec fn buttons_pressed_now(&self) -> Set<MouseButton> {
        self.mouse_just_pressed@.to_set()
    }

    /// Mouse buttons released during this frame.
    pub closed spec fn buttons_released_now(&self) -> Set<MouseButton> {
        self.mouse_just_released@.to_set()
    }

    /// Nothing held, nothing pressed or released.
    pub fn new() -> (r: Self)
        ensures
            r.wf(),
            r.keys_down() == Set::<KeyCode>::empty(),
            r.keys_pressed_now() == Set::<KeyCode>::empty(),
            r.keys_released_now() == Set::<KeyCode>::empty(),
            r.buttons_down() == Set::<MouseButton>::empty(),
            r.buttons_pressed_now() == Set::<MouseButton>::empty(),
            r.buttons_released_now() == Set::<MouseButton>::empty(),
    {
        let r = InputState {
            keys_pressed: Vec::new(),
            keys_just_pressed: Vec::new(),
            keys_just_released: Vec::new(),
            mouse_pressed: Vec::new(),
            mouse_just_pressed: Vec::new(),
            mouse_just_released: Vec::new(),
        };
        proof {
            assert(r.keys_down() =~= Set::<KeyCode>::empty());
            assert(r.keys_pressed_now() =~= Set::<KeyCode>::empty());
            assert(r.keys_released_now() =~= Set::<KeyCode>::empty());
            assert(r.buttons_down() =~= Set::<MouseButton>::empty());
            assert(r.buttons_pressed_now() =~= Set::<MouseButton>::empty());
            assert(r.buttons_released_now() =~= Set::<MouseButton>::empty());
        }
        r
    }

    /// Starts a frame: forgets what was pressed or released in the last
    /// one; what is held stays held.
    pub fn begin_frame(&mut self)
        requires
            old(self).wf(),
        ensures
            final(self).wf(),
            final(self).keys_down() == old(self).keys_down(),
            final(self).buttons_down() == old(self).buttons_down(),
            final(self).keys_pressed_now() == Set::<KeyCode>::empty(),
            final(self).keys_released_now() == Set::<KeyCode>::empty(),
            final(self).buttons_pressed_now() == Set::<MouseButton>::empty(),
            final(self).buttons_released_now() == Set::<MouseButton>::empty(),
    {
        self.keys_just_pressed.clear();
        self.keys_just_released.clear();
        self.mouse_just_pressed.clear();
        self.mouse_just_released.clear();
        proof {
            assert(self.keys_pressed_now() =~= Set::<KeyCode>::empty());
            assert(self.keys_released_now() =~= Set::<KeyCode>::empty());
            assert(self.buttons_pressed_now() =~= Set::<MouseButton>::empty());
            assert(self.buttons_released_now() =~= Set::<MouseButton>::empty());
        }
    }

    /// A key goes down; it counts as just pressed unless it was already
    /// held.
    pub fn press_key(&mut self, key: KeyCode)
        requires
            old(self).wf(),
        ensures
            final(self).wf(),
            final(self).keys_down() == old(self).keys_down().insert(key),
            final(self).keys_pressed_now() == if old(self).keys_down().contains(key) {
                old(self).keys_pressed_now()
            } else {
                old(self).keys_pressed_now().insert(key)
            },
            final(self).keys_released_now() == old(self).keys_released_now(),
            final(self).buttons_down() == old(self).buttons_down(),
            final(self).buttons_pressed_now() == old(self).buttons_pressed_now(),
            final(self).buttons_released_now() == old(self).buttons_released_now(),
    {
        if insert_key(&mut self.keys_pressed, key) {
            insert_key(&mut self.keys_just_pressed, key);
        }
    }

    /// A key goes up; it counts as just released if it was held.
    pub fn release_key(&mut self, key: KeyCode)
        requires
            old(self).wf(),
        ensures
            final(self).wf(),
            final(self).keys_down() == old(self).keys_down().remove(key),
            final(self).keys_released_now() == if old(self).keys_down().contains(key) {
                old(self).keys_released_now().insert(key)
            } else {
                old(self).keys_released_now()
            },
            final(self).keys_pressed_now() == old(self).keys_pressed_now(),
            final(self).buttons_down() == old(self).buttons_down(),
            final(self).buttons_pressed_now() == old(self).buttons_pressed_now(),
            final(self).buttons_released_now() == old(self).buttons_released_now(),
    {
        if remove_key(&mut self.keys_pressed, key) {
            insert_key(&mut self.keys_just_released, key);
        }
    }

    /// A mouse button goes down; it counts as just pressed unless it was
    /// already held.
    pub fn press_mouse(&mut self, button: MouseButton)
        requires
            old(self).wf(),
        ensures
            final(self).wf(),
            final(self).buttons_down() == old(self).buttons_down().insert(button),
            final(self).buttons_pressed_now() == if old(self).buttons_down().contains(button) {
                old(self).buttons_pressed_now()
            } else {
                old(self).buttons_pressed_now().insert(button)
            },
            final(self).buttons_released_now() == old(self).buttons_released_now(),
            final(self).keys_down() == old(self).keys_down(),
            final(self).keys_pressed_now() == old(self).keys_pressed_now(),
            final(self).keys_released_now() == old(self).keys_released_now(),
    {
        if insert_button(&mut self.mouse_pressed, button) {
            insert_button(&mut self.mouse_just_pressed, button);
        }
    }

    /// A mouse button goes up; it counts as just released if it was held.
    pub fn release_mouse(&mut self, button: MouseButton)
        requires
            old(self).wf(),
        ensures
            final(self).wf(),
            final(self).buttons_down() == old(self).buttons_down().remove(button),
            final(self).buttons_released_now() == if old(self).buttons_down().contains(button) {
                old(self).buttons_released_now().insert(button)
            } else {
                old(self).buttons_released_now()
            },
            final(self).buttons_pressed_now() == old(self).buttons_pressed_now(),
            final(self).keys_down() == old(self).keys_down(),
            final(self).keys_pressed_now() == old(self).keys_pressed_now(),
            final(self).keys_released_now() == old(self).keys_released_now(),
    {
        if remove_button(&mut self.mouse_pressed, button) {
            insert_button(&mut self.mouse_just_released, button);
        }
    }

    /// The key is held down.
    pub fn is_key_pressed(&self, key: KeyCode) -> (r: bool)
        ensures
            r == self.keys_down().contains(key),
    {
        contains_key(&self.keys_pressed, key)
    }

    /// The key went down during this frame.
    pub fn is_key_just_pressed(&self, key: KeyCode) -> (r: bool)
        ensures
            r == self.keys_pressed_now().contains(key),
    {
        contains_key(&self.keys_just_pressed, key)
    }

    /// The key went up during this frame.
    pub fn is_key_just_released(&self, key: KeyCode) -> (r: bool)
        ensures
            r == self.keys_released_now().contains(key),
    {
        contains_key(&self.keys_just_released, key)
    }

    /// The mouse button is held down.
    pub fn is_mouse_pressed(&self, button: MouseButton) -> (r: bool)
        ensures
            r == self.buttons_down().contains(button),
    {
        contains_button(&self.mouse_pressed, button)
    }

    /// The mouse button went down during this frame.
    pub fn is_mouse_just_pressed(&self, button: MouseButton) -> (r: bool)
        ensures
            r == self.buttons_pressed_now().contains(button),
    {
        contains_button(&self.mouse_just_pressed, button)
    }
}

/// A key that is still held when a frame begins is no new press in that
/// frame: pressing it again (as `press_key` does to a held key) leaves it
/// out of the keys just pressed.
pub proof fn law_held_key_is_no_new_press(frame_start: InputState, after_press: InputState, key: KeyCode)
    requires
        frame_start.keys_pressed_now() == Set::<KeyCode>::empty(),
        frame_start.keys_down().contains(key),
        after_press.keys_pressed_now() == if frame_start.keys_down().contains(key) {
            frame_start.keys_pressed_now()
        } else {
            frame_start.keys_pressed_now().insert(key)
        },
    ensures
        !after_press.keys_pressed_now().contains(key),
{
}

impl Default for InputState {
    fn default() -> (r: Self)
        ensures
            r.wf(),
            r.keys_down() == Set::<KeyCode>::empty(),
            r.keys_pressed_now() == Set::<KeyCode>::empty(),
            r.keys_released_now() == Set::<KeyCode>::empty(),
            r.buttons_down() == Set::<MouseButton>::empty(),
            r.buttons_pressed_now() == Set::<MouseButton>::empty(),
            r.buttons_released_now() == Set::<MouseButton>::empty(),
    {
        InputState::new()
    }
}

/// Configuration for window creation. Inserted as a resource before the
/// window is created.
#[derive(Debug, Clone)]
pub struct WindowDescriptor {
    pub title: String,
    pub width: u32,
    pub height: u32,
    pub vsync: bool,
    pub resizable: bool,
}

/// Plugin that configures the window: its settings become the
/// [`WindowDescriptor`] resource.
pub struct WindowPlugin {
    pub title: String,
    pub width: u32,
    pub height: u32,
    pub vsync: bool,
    pub resizable: bool,
}

impl WindowPlugin {
    /// The window this plugin describes.
    pub fn descriptor(&self) -> (r: WindowDescriptor)
        ensures
            r.title@ == self.title@,
            r.width == self.width,
            r.height == self.height,
            r.vsync == self.vsync,
            r.resizable == self.resizable,
    {
        WindowDescriptor {
            title: self.title.as_str().to_owned(),
            width: self.width,
            height: self.height,
            vsync: self.vsync,
            resizable: self.resizable,
        }
    }
}

impl Default for WindowPlugin {
    /// A resizable 1280x720 window titled "ChemEngine", with vsync.
    fn default() -> (r: Self)
        ensures
            r.title@ == "ChemEngine"@,
            r.width == 1280,
            r.height == 720,
            r.vsync,
            r.resizable,
    {
        WindowPlugin { title: "ChemEngine".to_owned(), width: 1280, height: 720, vsync: true, resizable: true }
    }
}

} // verus!
