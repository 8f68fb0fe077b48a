use marionette::agent::{consumed_tail, peek_slot, roundup2};
use marionette::topology::{get_all_siblings, get_highest_node_idx, highest_node_in, CpuList, Topology};

#[test]
fn cpu_list_set_and_is_set() {
    let mut list = CpuList::new(8);
    assert!(!list.is_set(3));
    list.set(3);
    assert!(list.is_set(3));
    assert!(!list.is_set(2));
    assert!(!list.is_set(4));
    list.set(511);
    assert!(list.is_set(511));
    assert_eq!(list.size(), 2);
}

#[test]
fn cpu_list_size_counts_every_word() {
    let cpus: Vec<i32> = vec![0, 1, 63, 64, 200, 511, 1];
    let list = CpuList::from_vec(512, &cpus);
    assert_eq!(list.size(), 6);
    for c in 0..512 {
        assert_eq!(list.is_set(c), cpus.contains(&c));
    }
}

#[test]
fn cpu_list_walk_is_ascending() {
    let list = CpuList::from_vec(128, &vec![70, 3, 64, 3, 5]);
    assert_eq!(list.cpus(), vec![3, 5, 64, 70]);
    let mut it = list.begin();
    assert_eq!(it.next(), Some(3));
    assert_eq!(it.next(), Some(5));
    assert_eq!(it.next(), Some(64));
    assert_eq!(it.next(), Some(70));
    assert_eq!(it.next(), None);
    assert_eq!(it.next(), None);
}

#[test]
fn cpu_list_walk_stops_at_num_cpus() {
    // CPU 4 is listed but equals the CPU count, so a walk ends before it.
    let list = CpuList::from_vec(4, &vec![1, 4, 6]);
    assert_eq!(list.cpus(), vec![1]);
}

#[test]
fn cpu_list_walk_beyond_words_in_use() {
    // 8 CPUs use one word; CPU 100 lies in a word that is not walked.
    let list = CpuList::from_vec(8, &vec![2, 100]);
    assert_eq!(list.cpus(), vec![2]);
    let mut it = list.end();
    assert_eq!(it.next(), Some(2));
    assert_eq!(it.next(), None);
}

#[test]
fn cpu_list_iter_new_from_the_middle() {
    let list = CpuList::from_vec(64, &vec![1, 10, 20]);
    let mut it = marionette::topology::CpuListIter::new(&list, 11);
    assert_eq!(it.next(), Some(20));
    assert_eq!(it.next(), None);
    let mut it = marionette::topology::CpuListIter::new(&list, -50);
    assert_eq!(it.next(), Some(20));
    let mut it = marionette::topology::CpuListIter::new(&list, 0);
    it.find_next_set_bit();
    assert_eq!(it.next(), Some(1));
}

#[test]
fn cpu_list_negative_count_is_empty() {
    let list = CpuList::new(-1);
    assert_eq!(list.cpus(), Vec::<i32>::new());
    assert_eq!(list.cpu_mask_string(), "0");
}

#[test]
fn cpu_mask_string_examples() {
    assert_eq!(CpuList::new(8).cpu_mask_string(), "0");
    assert_eq!(CpuList::from_vec(8, &vec![0]).cpu_mask_string(), "1");
    assert_eq!(CpuList::from_vec(8, &vec![0, 5]).cpu_mask_string(), "21");
    let all: Vec<i32> = (0..64).collect();
    assert_eq!(CpuList::from_vec(64, &all).cpu_mask_string(), "ffffffff,ffffffff");
    assert_eq!(CpuList::from_vec(128, &vec![64]).cpu_mask_string(), "1");
    assert_eq!(CpuList::from_vec(128, &vec![0, 64]).cpu_mask_string(), "1,00000000,00000001");
    assert_eq!(CpuList::from_vec(8, &vec![36]).cpu_mask_string(), "10,00000000");
}

#[test]
fn cpu_list_equality() {
    let a = CpuList::from_vec(8, &vec![1, 2]);
    let b = CpuList::from_vec(8, &vec![2, 1]);
    let c = CpuList::from_vec(9, &vec![1, 2]);
    assert!(a == b);
    assert!(a != c);
}

#[test]
fn cpu_list_from_cpuset() {
    let mut allowed = vec![false; 1024];
    allowed[3] = true;
    allowed[7] = true;
    let list = CpuList::from_cpuset(8, &allowed);
    assert_eq!(list.cpus(), vec![3, 7]);
    assert_eq!(list.size(), 2);
}

#[test]
fn cpu_list_to_cpu_set() {
    let list = CpuList::from_vec(8, &vec![1, 6]);
    let set = list.to_cpu_set();
    for c in 0..16usize {
        assert_eq!(set.is_set(c).unwrap(), c == 1 || c == 6);
    }
}

#[test]
fn all_siblings_group_equal_lines() {
    let lines: Vec<String> = vec!["0-1\n".to_string(), "0-1\n".to_string(), "2\n".to_string()];
    let siblings = get_all_siblings(&lines, 3);
    assert_eq!(siblings.len(), 3);
    assert_eq!(siblings[0].cpus(), vec![0, 1]);
    assert_eq!(siblings[1].cpus(), vec![0, 1]);
    assert_eq!(siblings[2].cpus(), vec![2]);
}

#[test]
fn highest_node_idx_examples() {
    assert_eq!(get_highest_node_idx("0\n"), Some(0));
    assert_eq!(get_highest_node_idx("0-3\n"), Some(3));
    assert_eq!(get_highest_node_idx("0,2-5\n"), Some(5));
    assert_eq!(get_highest_node_idx("7,2"), Some(7));
    assert_eq!(get_highest_node_idx("0-x\n"), None);
    assert_eq!(get_highest_node_idx(""), None);
}

#[test]
fn topology_from_consistent_parts() {
    let lines: Vec<String> = vec!["0-1".into(), "0-1".into(), "2-3".into(), "2-3".into()];
    let siblings = get_all_siblings(&lines, 4);
    let l3_lines: Vec<String> = vec!["0-3".into(); 4];
    let l3 = get_all_siblings(&l3_lines, 4);
    let nodes = vec![0usize, 0, 1, 1];
    let t = Topology::from_parts(4, &siblings, &l3, &nodes, 1).unwrap();
    assert_eq!(t.num_cpus, 4);
    assert_eq!(t.all_cpus.cpus(), vec![0, 1, 2, 3]);
    assert_eq!(t.highest_node_idx, 1);
    assert_eq!(t.cpus_on_node.len(), 2);
    assert_eq!(t.cpus_on_node[0].cpus(), vec![0, 1]);
    assert_eq!(t.cpus_on_node[1].cpus(), vec![2, 3]);
}

#[test]
fn topology_from_inconsistent_parts() {
    let lines: Vec<String> = vec!["0-1".into(), "0-1".into()];
    let siblings = get_all_siblings(&lines, 2);
    // CPU 1's list claims only CPU 1 while CPU 0's claims both.
    let other = vec![siblings[0], CpuList::from_vec(2, &vec![1])];
    assert!(Topology::from_parts(2, &other, &siblings, &vec![0, 0], 0).is_none());
    // A NUMA node above the highest one.
    assert!(Topology::from_parts(2, &siblings, &siblings, &vec![0, 1], 0).is_none());
    // A CPU missing from its own sibling list.
    let empty = vec![CpuList::new(2), CpuList::new(2)];
    assert!(Topology::from_parts(2, &empty, &siblings, &vec![0, 0], 0).is_none());
    assert!(Topology::from_parts(2, &siblings, &siblings, &vec![0, 0], 0).is_some());
}

#[test]
fn roundup_to_power_of_two() {
    assert_eq!(roundup2(13, 8), 16);
    assert_eq!(roundup2(16, 8), 16);
    assert_eq!(roundup2(0, 8), 0);
    assert_eq!(roundup2(1, 1), 1);
    assert_eq!(roundup2(65, 64), 128);
}

#[test]
fn ring_slot_and_tail() {
    assert_eq!(peek_slot(3, 3, 1, 8), None);
    assert_eq!(peek_slot(5, 3, 0, 8), Some(3));
    assert_eq!(peek_slot(12, 9, 0, 8), Some(1));
    assert_eq!(consumed_tail(10, 48, 8), 16);
    assert_eq!(consumed_tail(10, 50, 8), 17);
}

#[test]
fn cpu_list_set_grows_size_once() {
    let mut list = CpuList::new(64);
    assert_eq!(list.size(), 0);
    list.set(9);
    assert_eq!(list.size(), 1);
    list.set(9);
    assert_eq!(list.size(), 1);
    list.set(10);
    assert_eq!(list.size(), 2);
}

#[test]
fn highest_node_in_entries() {
    let s = |v: &[&str]| v.iter().map(|p| p.to_string()).collect::<Vec<String>>();
    assert_eq!(highest_node_in(&s(&["0", "3\n"])), Some(3));
    assert_eq!(highest_node_in(&s(&[" 9 ", "2"])), Some(9));
    assert_eq!(highest_node_in(&s(&[])), Some(0));
    assert_eq!(highest_node_in(&s(&["1", ""])), None);
    assert_eq!(highest_node_in(&s(&["-1"])), None);
}

#[test]
fn cpu_mask_string_reviewed_examples() {
    assert_eq!(CpuList::from_vec(64, &vec![0, 4, 32]).cpu_mask_string(), "1,00000011");
    assert_eq!(CpuList::new(200).cpu_mask_string(), "0");
    assert_eq!(CpuList::from_vec(64, &vec![63]).cpu_mask_string(), "80000000,00000000");
}

#[test]
fn cpu_list_iter_walks_in_order() {
    let list = CpuList::from_vec(130, &vec![3, 70, 129]);
    let walk = |start: i32| {
        let mut it = marionette::topology::CpuListIter::new(&list, start);
        let mut v = Vec::new();
        while let Some(c) = it.next() {
            v.push(c);
        }
        v
    };
    assert_eq!(walk(4), vec![70, 129]);
    assert_eq!(walk(3), vec![3, 70, 129]);
    assert_eq!(walk(130), Vec::<i32>::new());
    let list = CpuList::from_vec(130, &vec![129, 0, 64]);
    assert_eq!(list.cpus(), vec![0, 64, 129]);
}

#[test]
fn cpu_list_set_twice_and_repeats() {
    let mut once = CpuList::new(16);
    once.set(5);
    let mut twice = once;
    twice.set(5);
    assert!(once == twice);
    assert!(CpuList::from_vec(8, &vec![5, 1, 5]) == CpuList::from_vec(8, &vec![1, 5]));
}

#[test]
fn siblings_equal_exactly_for_equal_lines() {
    let lines: Vec<String> = vec!["0-1\n".to_string(), "0-1\n".to_string(), "2\n".to_string()];
    let s = get_all_siblings(&lines, 3);
    assert!(s[0] == s[1]);
    assert!(s[0] != s[2]);
    assert!(s[0] == CpuList::from_vec(3, &vec![0, 1]));
}

#[test]
fn topology_lists_are_made_for_its_cpu_count() {
    let lines: Vec<String> = vec!["0-1".into(), "0-1".into(), "2".into()];
    let siblings = get_all_siblings(&lines, 3);
    let nodes = vec![0usize, 1, 1];
    let t = Topology::from_parts(3, &siblings, &siblings, &nodes, 1).unwrap();
    assert!(t.all_cpus == CpuList::from_vec(3, &vec![0, 1, 2]));
    assert!(t.cpus_on_node[0] == CpuList::from_vec(3, &vec![0]));
    assert!(t.cpus_on_node[1] == CpuList::from_vec(3, &vec![1, 2]));
    assert!(t.cpus_on_node[1] != CpuList::from_vec(512, &vec![1, 2]));
}

#[test]
fn highest_node_idx_separator_edges() {
    assert_eq!(get_highest_node_idx("0,,3"), None);
    assert_eq!(get_highest_node_idx("-3"), None);
    assert_eq!(get_highest_node_idx("12"), Some(12));
    assert_eq!(get_highest_node_idx(" 4 - 9 "), Some(9));
}
