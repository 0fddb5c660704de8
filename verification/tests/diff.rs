use deet::diff::{lcs, print_diff, DiffLine, Grid};

fn display(grid: &Grid) {
    for row in 0..grid.size().0 {
        let mut line = String::new();
        for col in 0..grid.size().1 {
            line = format!("{}{} ", line, grid.get(row, col).unwrap());
        }
        println!("{}", line);
    }
}

fn lines(text: &str) -> Vec<String> {
    text.chars().map(|c| c.to_string()).collect()
}

#[test]
fn test_lcs() {
    let mut expected = Grid::new(5, 4);
    expected.set(1, 1, 1).unwrap();
    expected.set(1, 2, 1).unwrap();
    expected.set(1, 3, 1).unwrap();
    expected.set(2, 1, 1).unwrap();
    expected.set(2, 2, 1).unwrap();
    expected.set(2, 3, 2).unwrap();
    expected.set(3, 1, 1).unwrap();
    expected.set(3, 2, 1).unwrap();
    expected.set(3, 3, 2).unwrap();
    expected.set(4, 1, 1).unwrap();
    expected.set(4, 2, 2).unwrap();
    expected.set(4, 3, 2).unwrap();

    println!("Expected:");
    display(&expected);
    let result = lcs(
        &"abcd".chars().map(|c| c.to_string()).collect(),
        &"adb".chars().map(|c| c.to_string()).collect(),
    );
    println!("Got:");
    display(&result);
    assert_eq!(result.size(), expected.size());
    for row in 0..expected.size().0 {
        for col in 0..expected.size().1 {
            assert_eq!(result.get(row, col), expected.get(row, col));
        }
    }
}

#[test]
fn grid_starts_with_zeros_and_checks_bounds() {
    let mut grid = Grid::new(2, 3);
    assert_eq!(grid.size(), (2, 3));
    for row in 0..2 {
        for col in 0..3 {
            assert_eq!(grid.get(row, col), Some(0));
        }
    }
    assert_eq!(grid.get(2, 0), None);
    assert_eq!(grid.get(0, 3), None);
    assert!(grid.set(2, 0, 1).is_err());
    assert!(grid.set(0, 3, 1).is_err());
    assert!(grid.set(1, 2, 9).is_ok());
    assert_eq!(grid.get(1, 2), Some(9));
    assert_eq!(grid.get(0, 2), Some(0));
    assert_eq!(grid.get(1, 1), Some(0));
    grid.clear();
    assert_eq!(grid.get(1, 2), Some(0));
}

#[test]
fn lcs_of_empty_texts() {
    let grid = lcs(&vec![], &lines("ab"));
    assert_eq!(grid.size(), (1, 3));
    assert_eq!(grid.get(0, 2), Some(0));
    let grid = lcs(&lines("ab"), &vec![]);
    assert_eq!(grid.size(), (3, 1));
    assert_eq!(grid.get(2, 0), Some(0));
}

#[test]
fn diff_script_rebuilds_both_texts() {
    let first = lines("abcd");
    let second = lines("adb");
    let table = lcs(&first, &second);
    let mut script = Vec::new();
    print_diff(&table, &first, &second, first.len(), second.len(), &mut script);
    assert_eq!(
        script,
        vec![
            DiffLine::Same("a".to_string()),
            DiffLine::Removed("b".to_string()),
            DiffLine::Removed("c".to_string()),
            DiffLine::Same("d".to_string()),
            DiffLine::Added("b".to_string()),
        ]
    );
    let mut from_first = Vec::new();
    let mut from_second = Vec::new();
    let mut kept = 0;
    for line in &script {
        match line {
            DiffLine::Same(text) => {
                from_first.push(text.clone());
                from_second.push(text.clone());
                kept += 1;
            }
            DiffLine::Removed(text) => from_first.push(text.clone()),
            DiffLine::Added(text) => from_second.push(text.clone()),
        }
    }
    assert_eq!(from_first, first);
    assert_eq!(from_second, second);
    assert_eq!(Some(kept), table.get(first.len(), second.len()));
}

#[test]
fn diff_of_equal_texts_keeps_every_line() {
    let text = lines("xyz");
    let table = lcs(&text, &text);
    let mut script = Vec::new();
    print_diff(&table, &text, &text, 3, 3, &mut script);
    assert_eq!(
        script,
        vec![
            DiffLine::Same("x".to_string()),
            DiffLine::Same("y".to_string()),
            DiffLine::Same("z".to_string()),
        ]
    );
}

#[test]
fn diff_appends_to_what_is_there() {
    let first = lines("a");
    let second: Vec<String> = vec![];
    let table = lcs(&first, &second);
    let mut script = vec![DiffLine::Added("header".to_string())];
    print_diff(&table, &first, &second, 1, 0, &mut script);
    assert_eq!(
        script,
        vec![DiffLine::Added("header".to_string()), DiffLine::Removed("a".to_string())]
    );
}
