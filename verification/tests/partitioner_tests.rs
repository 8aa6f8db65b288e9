use hashdeep_compare::log_entry::LogEntry;
use hashdeep_compare::partitioner::{match_partition, MatchPartitionError};

fn entries(lines: &[&str]) -> Vec<LogEntry> {
    lines.iter().map(|l| LogEntry::from_str(l).unwrap()).collect()
}

#[test]
fn mod_match_partition_test() {
    let from_file1 = entries(&[
        "1,a,b,f1",
        "2,c,d,f2",
        "3,e,f,g1",
        "3,e,f,g1",
        "5,i,j,g3",
        "5,i,j,g3",
        "6,k,l,n1",
        "8,o,p,n2",
        "9,q,r,n2",
        "12,w,x,n4",
        "13,y,z,n4",
        "15,cc,dd,h1",
        "16,ee,ff,h3",
        "16,ee,ff,h4",
        "18,ii,jj,h7",
        "18,ii,jj,h8",
        "19,kk,ll,x1",
    ]);
    let from_file2 = entries(&[
        "1,a,b,f1",
        "2,c,d,f2",
        "4,g,h,g2",
        "4,g,h,g2",
        "5,i,j,g3",
        "7,m,n,n1",
        "10,s,t,n3",
        "11,u,v,n3",
        "14,aa,bb,n4",
        "15,cc,dd,h2",
        "17,gg,hh,h5",
        "17,gg,hh,h6",
        "18,ii,jj,h9",
        "20,mm,nn,x2",
    ]);

    let mp = match_partition(&from_file1, &from_file2).unwrap();

    assert_eq!(2, mp.full_match_pairs.len());
    assert_eq!(1, mp.full_match_groups_file1.len());
    assert_eq!(1, mp.full_match_groups_file2.len());
    assert_eq!(1, mp.full_match_groups.len());
    assert_eq!(1, mp.name_match_pairs.len());
    assert_eq!(1, mp.name_match_groups_file1.len());
    assert_eq!(1, mp.name_match_groups_file2.len());
    assert_eq!(1, mp.name_match_groups.len());
    assert_eq!(1, mp.hashes_match_pairs.len());
    assert_eq!(1, mp.hashes_match_groups_file1.len());
    assert_eq!(1, mp.hashes_match_groups_file2.len());
    assert_eq!(1, mp.hashes_match_groups.len());
    assert_eq!(1, mp.no_match_file1.len());
    assert_eq!(1, mp.no_match_file2.len());
}

// Every record of both inputs lands in exactly one bucket: collecting every
// bucket back up gives the input records, nothing more, nothing less.
#[test]
fn partition_property_test() {
    let from_file1 = entries(&[
        "1,a,b,keep",
        "1,a,b,keep",
        "2,c,d,edited",
        "3,e,f,moved/old",
        "4,g,h,only1",
    ]);
    let from_file2 = entries(&["1,a,b,keep", "9,x,y,edited", "3,e,f,moved/new", "5,i,j,only2"]);

    let mp = match_partition(&from_file1, &from_file2).unwrap();

    let mut collected: Vec<String> = Vec::new();
    for p in &mp.full_match_pairs {
        collected.push(p.from_file1.to_string());
        collected.push(p.from_file2.to_string());
    }
    for p in &mp.name_match_pairs {
        collected.push(p.from_file1.to_string());
        collected.push(p.from_file2.to_string());
    }
    for p in &mp.hashes_match_pairs {
        collected.push(p.from_file1.to_string());
        collected.push(p.from_file2.to_string());
    }
    for g in mp
        .full_match_groups_file1
        .iter()
        .chain(mp.full_match_groups_file2.iter())
        .chain(mp.name_match_groups_file1.iter())
        .chain(mp.name_match_groups_file2.iter())
        .chain(mp.hashes_match_groups_file1.iter())
        .chain(mp.hashes_match_groups_file2.iter())
    {
        for e in g.log_entries.inner_ref() {
            collected.push(e.to_string());
        }
    }
    for g in mp
        .full_match_groups
        .iter()
        .chain(mp.name_match_groups.iter())
        .chain(mp.hashes_match_groups.iter())
    {
        for e in g.from_file1.inner_ref().iter().chain(g.from_file2.inner_ref().iter()) {
            collected.push(e.to_string());
        }
    }
    for e in mp.no_match_file1.iter().chain(mp.no_match_file2.iter()) {
        collected.push(e.to_string());
    }

    let mut expected: Vec<String> =
        from_file1.iter().chain(from_file2.iter()).map(|e| e.to_string()).collect();
    collected.sort();
    expected.sort();
    assert_eq!(collected, expected);
}

// Reordering both input lists changes nothing in the result.
#[test]
fn deterministic_ordering_test() {
    let lines1 = [
        "1,a,b,keep",
        "2,c,d,edited",
        "3,e,f,moved/old",
        "4,g,h,only1",
        "6,q,r,dup",
        "6,q,r,dup",
    ];
    let lines2 = ["1,a,b,keep", "9,x,y,edited", "3,e,f,moved/new", "5,i,j,only2"];

    let forward1 = entries(&lines1);
    let forward2 = entries(&lines2);
    let mut reversed1 = lines1;
    reversed1.reverse();
    let mut reversed2 = lines2;
    reversed2.reverse();
    let backward1 = entries(&reversed1);
    let backward2 = entries(&reversed2);

    let mp_forward = match_partition(&forward1, &forward2).unwrap();
    let mp_backward = match_partition(&backward1, &backward2).unwrap();
    assert_eq!(mp_forward, mp_backward);
}

#[test]
fn empty_inputs_test() {
    let mp = match_partition(&Vec::new(), &Vec::new()).unwrap();
    assert_eq!(mp.full_match_pairs.len(), 0);
    assert_eq!(mp.no_match_file1.len(), 0);
    assert_eq!(mp.no_match_file2.len(), 0);
}

#[test]
fn match_partition_error_message_test() {
    assert_eq!(
        MatchPartitionError::ChecksumFailure.message(),
        "Serious error: Match partition checksum failed (this should never happen)"
    );
    assert_eq!(
        MatchPartitionError::ChecksumArithmeticOverflow.message(),
        "arithmetic overflow in match partition checksum calculation"
    );
}
