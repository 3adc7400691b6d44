//! The state of the viewer and its reaction to what happens.
//!
//! The viewer's window, its widgets and its file dialog are the caller's.
//! What is decided here is how the state changes with each message and
//! which work the caller has to start next: scanning a folder, or loading
//! the images of a path. The result of that work comes back as a message.

use vstd::prelude::*;
use crate::scanner::{lemma_lookup, lookup, SeriesCatalog};
use crate::slice::ImageSlice;
use crate::text::{copy_tail_after, tail_after};

verus! {

/// A key of the keyboard, as far as the viewer tells keys apart.
#[derive(Debug, Clone, Copy, PartialEq, Eq, Structural)]
pub enum Key {
    /// The arrow that moves the selection up.
    ArrowUp,
    /// The arrow that moves the selection down.
    ArrowDown,
    /// Any other key.
    Other,
}

/// What happened.
#[derive(Debug, Clone)]
pub enum Message {
    /// The user asked for a folder and picked one, or gave up.
    OpenFolder(Option<String>),
    /// A folder was scanned for series.
    OpenedFolder(SeriesCatalog),
    /// The images of a path were loaded.
    LoadedImage(Vec<ImageSlice>),
    /// The slider was moved to a slice.
    SliderChanged(u8),
    /// A series was chosen from the list: its place and its name.
    FileSelected(usize, String),
    /// A key was pressed.
    KeyPressed(Key),
}

/// The work that the caller has to start after a message.
#[derive(Debug, Clone)]
pub enum Effect {
    /// Nothing.
    Idle,
    /// Scan the folder at this path, and report the series found.
    ScanFolder(String),
    /// Load the images of this path, and report the slices.
    LoadImages(String),
}

/// An effect as plain values.
pub enum EffectView {
    /// Nothing.
    Idle,
    /// Scan the folder at this path.
    ScanFolder(Seq<char>),
    /// Load the images of this path.
    LoadImages(Seq<char>),
}

impl View for Effect {
    type V = EffectView;

    open spec fn view(&self) -> EffectView {
        match self {
            Effect::Idle => EffectView::Idle,
            Effect::ScanFolder(path) => EffectView::ScanFolder(path@),
            Effect::LoadImages(path) => EffectView::LoadImages(path@),
        }
    }
}

/// The state of the viewer.
#[derive(Debug)]
pub struct App {
    /// The place in `slice_buffer` of the slice on display, if any.
    pub shown: Option<usize>,
    /// Whether the image area is on display.
    pub show_container: bool,
    /// The name on display: the last part of the shown slice's source.
    pub image_name: String,
    /// The slices of the series that was loaded last, in display order.
    pub slice_buffer: Vec<ImageSlice>,
    /// The series of the folder that was opened last.
    pub catalog: SeriesCatalog,
    /// The place that the slider stands at.
    pub current_slice: u8,
    /// The place in the catalog of the series that is selected, if any.
    pub selected_idx: Option<usize>,
}

/// The name that is displayed for a source: what follows its last slash.
pub open spec fn display_name(source: Seq<char>) -> Seq<char> {
    tail_after(source, '/')
}

/// The place that a key moves the selection to, or `None` where the key
/// moves nothing: the arrows move by one place and stop at the ends of
/// the list.
pub open spec fn moved_selection(selected: Option<usize>, key: Key, series: int) -> Option<int> {
    match selected {
        Some(at) => if key == Key::ArrowDown && at < series - 1 {
            Some(at + 1)
        } else if key == Key::ArrowUp && at > 0 {
            Some(at - 1)
        } else {
            None
        },
        None => None,
    }
}

impl App {
    /// The places that the state points to exist: the shown slice and the
    /// slider's place in the slice buffer, the selected series in the
    /// catalog.
    pub open spec fn wf(&self) -> bool {
        &&& self.shown matches Some(at) ==> at < self.slice_buffer@.len()
        &&& self.selected_idx matches Some(at) ==> at < self.catalog@.len()
        &&& self.slice_buffer@.len() > 0 ==> self.current_slice < self.slice_buffer@.len()
    }

    /// Whether a message can come in this state: a catalog or a slice
    /// buffer that arrives is not empty, the slider stays within the slice
    /// buffer, and a series that is chosen is in the catalog.
    pub open spec fn accepts(&self, message: Message) -> bool {
        match message {
            Message::OpenFolder(_) => true,
            Message::OpenedFolder(catalog) => catalog@.len() > 0,
            Message::LoadedImage(slices) => slices@.len() > 0,
            Message::SliderChanged(at) => at < self.slice_buffer@.len(),
            Message::FileSelected(at, name) => at < self.catalog@.len() && lookup(
                self.catalog@,
                name@,
            ) is Some,
            Message::KeyPressed(_) => true,
        }
    }

    /// The state at the start: nothing opened, nothing on display.
    pub fn new() -> (app: App)
        ensures
            app.wf(),
            app.shown is None,
            !app.show_container,
            app.slice_buffer@.len() == 0,
            app.catalog@.len() == 0,
            app.current_slice == 0,
            app.selected_idx is None,
            app.image_name@ == "No image loaded..."@,
    {
        App {
            shown: None,
            show_container: false,
            image_name: "No image loaded...".to_owned(),
            slice_buffer: Vec::new(),
            catalog: SeriesCatalog::new(),
            current_slice: 0,
            selected_idx: None,
        }
    }

    /// The state at the start when one image was handed over to be shown:
    /// the image is on display under the given name.
    pub fn with_image(image_name: String, image: ImageSlice) -> (app: App)
        ensures
            app.wf(),
            app.shown == Some(0usize),
            app.show_container,
            app.slice_buffer@ == seq![image],
            app.catalog@.len() == 0,
            app.current_slice == 0,
            app.selected_idx is None,
            app.image_name@ == image_name@,
    {
        let mut slice_buffer: Vec<ImageSlice> = Vec::new();
        slice_buffer.push(image);
        App {
            shown: Some(0),
            show_container: true,
            image_name,
            slice_buffer,
            catalog: SeriesCatalog::new(),
            current_slice: 0,
            selected_idx: None,
        }
    }

    /// Tests whether a message can come in this state.
    pub fn can_accept(&self, message: &Message) -> (ok: bool)
        ensures
            ok == self.accepts(*message),
    {
        match message {
            Message::OpenFolder(_) => true,
            Message::OpenedFolder(catalog) => catalog.len() > 0,
            Message::LoadedImage(slices) => slices.len() > 0,
            Message::SliderChanged(at) => (*at as usize) < self.slice_buffer.len(),
            Message::FileSelected(at, name) => *at < self.catalog.len() && self.catalog.path_of(
                name,
            ).is_some(),
            Message::KeyPressed(_) => true,
        }
    }

    /// The slice on display, if any.
    pub fn shown_slice(&self) -> (slice: Option<&ImageSlice>)
        requires
            self.wf(),
        ensures
            slice is Some <==> self.shown is Some,
            slice matches Some(s) ==> *s == self.slice_buffer@[self.shown.unwrap() as int],
    {
        match self.shown {
            Some(at) => Some(&self.slice_buffer[at]),
            None => None,
        }
    }

    /// The last place that the slider reaches: the place of the last
    /// slice, so that the slider goes over the places of the slice buffer
    /// from 0 on, one for one. The slider counts in bytes, which is enough
    /// for 256 slices.
    pub fn slider_end(&self) -> (end: u8)
        requires
            1 <= self.slice_buffer@.len() <= 256,
        ensures
            end == self.slice_buffer@.len() - 1,
            forall|at: u8| at <= end <==> self.accepts(Message::SliderChanged(at)),
    {
        (self.slice_buffer.len() - 1) as u8
    }

    /// Takes a message into the state and tells which work to start.
    ///
    /// - A folder that was picked is to be scanned, and the image area
    ///   is put on display. Where the user gave up the dialog, nothing
    ///   changes and nothing is started.
    /// - A catalog that arrives replaces the old one; its first series is
    ///   selected and is to be loaded.
    /// - Slices that arrive replace the old ones; the first of them is on
    ///   display if it has pixels, and the slider stands at it.
    /// - The slider puts the slice at its place on display if it has
    ///   pixels, and nothing if it has none.
    /// - A series that is chosen is selected and is to be loaded; the
    ///   slider goes back to the first place.
    /// - An arrow key moves the selection by one place, if there is one
    ///   and it is not at that end of the list; the series that it moves
    ///   to is to be loaded.
    pub fn update(&mut self, message: Message) -> (effect: Effect)
        requires
            old(self).wf(),
            old(self).accepts(message),
        ensures
            final(self).wf(),
            match message {
                Message::OpenFolder(picked) => {
                    &&& final(self).show_container == (picked is Some || old(self).show_container)
                    &&& final(self).shown == old(self).shown
                    &&& final(self).image_name@ == old(self).image_name@
                    &&& final(self).slice_buffer@ == old(self).slice_buffer@
                    &&& final(self).catalog@ == old(self).catalog@
                    &&& final(self).current_slice == old(self).current_slice
                    &&& final(self).selected_idx == old(self).selected_idx
                    &&& effect@ == match picked {
                        Some(path) => EffectView::ScanFolder(path@),
                        None => EffectView::Idle,
                    }
                },
                Message::OpenedFolder(catalog) => {
                    &&& final(self).catalog@ == catalog@
                    &&& final(self).selected_idx == Some(0usize)
                    &&& final(self).show_container == old(self).show_container
                    &&& final(self).shown == old(self).shown
                    &&& final(self).image_name@ == old(self).image_name@
                    &&& final(self).slice_buffer@ == old(self).slice_buffer@
                    &&& final(self).current_slice == old(self).current_slice
                    &&& lookup(catalog@, catalog@[0].0) is Some
                    &&& effect@ == EffectView::LoadImages(lookup(catalog@, catalog@[0].0).unwrap())
                },
                Message::LoadedImage(slices) => {
                    &&& final(self).slice_buffer@ == slices@
                    &&& final(self).show_container == (slices@[0]@.pixels.len() > 0)
                    &&& final(self).shown == if slices@[0]@.pixels.len() > 0 {
                        Some(0usize)
                    } else {
                        None
                    }
                    &&& final(self).image_name@ == display_name(slices@[0]@.file_name)
                    &&& final(self).current_slice == 0
                    &&& final(self).catalog@ == old(self).catalog@
                    &&& final(self).selected_idx == old(self).selected_idx
                    &&& effect@ == EffectView::Idle
                },
                Message::SliderChanged(at) => {
                    &&& final(self).shown == if old(self).slice_buffer@[at as int]@.pixels.len()
                        > 0 {
                        Some(at as usize)
                    } else {
                        None
                    }
                    &&& final(self).current_slice == at
                    &&& final(self).image_name@ == display_name(
                        old(self).slice_buffer@[at as int]@.file_name,
                    )
                    &&& final(self).show_container == old(self).show_container
                    &&& final(self).slice_buffer@ == old(self).slice_buffer@
                    &&& final(self).catalog@ == old(self).catalog@
                    &&& final(self).selected_idx == old(self).selected_idx
                    &&& effect@ == EffectView::Idle
                },
                Message::FileSelected(at, name) => {
                    &&& final(self).current_slice == 0
                    &&& final(self).selected_idx == Some(at)
                    &&& final(self).shown == old(self).shown
                    &&& final(self).show_container == old(self).show_container
                    &&& final(self).image_name@ == old(self).image_name@
                    &&& final(self).slice_buffer@ == old(self).slice_buffer@
                    &&& final(self).catalog@ == old(self).catalog@
                    &&& effect@ == EffectView::LoadImages(
                        lookup(old(self).catalog@, name@).unwrap(),
                    )
                },
                Message::KeyPressed(key) => {
                    let target = moved_selection(
                        old(self).selected_idx,
                        key,
                        old(self).catalog@.len() as int,
                    );
                    &&& final(self).shown == old(self).shown
                    &&& final(self).show_container == old(self).show_container
                    &&& final(self).image_name@ == old(self).image_name@
                    &&& final(self).slice_buffer@ == old(self).slice_buffer@
                    &&& final(self).catalog@ == old(self).catalog@
                    &&& final(self).current_slice == old(self).current_slice
                    &&& match target {
                        Some(to) => {
                            &&& 0 <= to < old(self).catalog@.len()
                            &&& final(self).selected_idx == Some(to as usize)
                            &&& lookup(old(self).catalog@, old(self).catalog@[to].0) is Some
                            &&& effect@ == EffectView::LoadImages(
                                lookup(old(self).catalog@, old(self).catalog@[to].0).unwrap(),
                            )
                        },
                        None => {
                            &&& final(self).selected_idx == old(self).selected_idx
                            &&& effect@ == EffectView::Idle
                        },
                    }
                },
            },
    {
        match message {
            Message::OpenFolder(picked) => {
                match picked {
                    Some(path) => {
                        self.show_container = true;
                        Effect::ScanFolder(path)
                    },
                    None => Effect::Idle,
                }
            },
            Message::OpenedFolder(catalog) => {
                self.catalog = catalog;
                self.selected_idx = Some(0);
                self.load_series(0)
            },
            Message::LoadedImage(slices) => {
                self.slice_buffer = slices;
                if self.slice_buffer[0].is_available() {
                    self.shown = Some(0);
                    self.show_container = true;
                } else {
                    self.shown = None;
                    self.show_container = false;
                }
                self.image_name = copy_tail_after(self.slice_buffer[0].file_name().as_str(), '/');
                self.current_slice = 0;
                Effect::Idle
            },
            Message::SliderChanged(at) => {
                let index: usize = at as usize;
                if self.slice_buffer[index].is_available() {
                    self.shown = Some(index);
                } else {
                    self.shown = None;
                }
                self.current_slice = at;
                self.image_name = copy_tail_after(
                    self.slice_buffer[index].file_name().as_str(),
                    '/',
                );
                Effect::Idle
            },
            Message::FileSelected(at, name) => {
                self.current_slice = 0;
                self.selected_idx = Some(at);
                match self.catalog.path_of(&name) {
                    Some(path) => Effect::LoadImages(path.clone()),
                    None => Effect::Idle,
                }
            },
            Message::KeyPressed(key) => {
                let mut target: Option<usize> = None;
                match self.selected_idx {
                    Some(at) => {
                        if key == Key::ArrowDown {
                            if at < self.catalog.len() - 1 {
                                target = Some(at + 1);
                            }
                        } else if key == Key::ArrowUp {
                            if at > 0 {
                                target = Some(at - 1);
                            }
                        }
                    },
                    None => {},
                }
                match target {
                    Some(to) => {
                        self.selected_idx = Some(to);
                        self.load_series(to)
                    },
                    None => Effect::Idle,
                }
            },
        }
    }

    /// The effect that loads the series at a place of the catalog.
    fn load_series(&self, at: usize) -> (effect: Effect)
        requires
            at < self.catalog@.len(),
        ensures
            lookup(self.catalog@, self.catalog@[at as int].0) is Some,
            effect@ == EffectView::LoadImages(
                lookup(self.catalog@, self.catalog@[at as int].0).unwrap(),
            ),
    {
        proof {
            lemma_lookup(self.catalog@, self.catalog@[at as int].0);
        }
        match self.catalog.path_of(self.catalog.name_at(at)) {
            Some(path) => Effect::LoadImages(path.clone()),
            None => Effect::Idle,
        }
    }
}

} // verus!
