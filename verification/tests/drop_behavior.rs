use grid_array::GridArray;
use std::cell::Cell;
use std::rc::Rc;

struct Counted {
    hits: Rc<Cell<usize>>,
}

impl Drop for Counted {
    fn drop(&mut self) {
        self.hits.set(self.hits.get() + 1);
    }
}

fn counted(hits: &Rc<Cell<usize>>) -> Counted {
    Counted { hits: Rc::clone(hits) }
}

#[test]
fn destroying_a_buffer_cleans_up_every_element_once() {
    let hits: Rc<Cell<usize>> = Rc::new(Cell::new(0));
    let mut g: GridArray<Counted> = GridArray::new();
    for _ in 0..5 {
        g.push(counted(&hits));
    }
    assert_eq!(hits.get(), 0);
    drop(g);
    assert_eq!(hits.get(), 5);
}

#[test]
fn overwriting_drops_the_replaced_element() {
    let hits: Rc<Cell<usize>> = Rc::new(Cell::new(0));
    let mut g: GridArray<Counted> = GridArray::new();
    g.push(counted(&hits));
    g.push(counted(&hits));
    g.set(0, counted(&hits));
    assert_eq!(hits.get(), 1);
    drop(g);
    assert_eq!(hits.get(), 3);
}

#[test]
fn dropping_a_partially_drained_iterator_cleans_up_the_rest() {
    let hits: Rc<Cell<usize>> = Rc::new(Cell::new(0));
    let mut g: GridArray<Counted> = GridArray::new();
    for _ in 0..6 {
        g.push(counted(&hits));
    }
    let mut it = g.into_iter();
    let first = it.next().unwrap();
    let second = it.next().unwrap();
    assert_eq!(hits.get(), 0);
    drop(it);
    assert_eq!(hits.get(), 4);
    drop(first);
    drop(second);
    assert_eq!(hits.get(), 6);
}

#[test]
fn each_yielded_element_is_owned_exactly_once() {
    let hits: Rc<Cell<usize>> = Rc::new(Cell::new(0));
    let mut g: GridArray<Counted> = GridArray::new();
    for _ in 0..4 {
        g.push(counted(&hits));
    }
    let mut it = g.into_iter();
    let mut yielded: usize = 0;
    while let Some(elem) = it.next() {
        yielded += 1;
        drop(elem);
        assert_eq!(hits.get(), yielded);
    }
    assert_eq!(yielded, 4);
    assert_eq!(hits.get(), 4);
}
